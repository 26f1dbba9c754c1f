use vstd::prelude::*;

verus! {

/// The options an fzf invocation is built from.
#[derive(Debug, Clone)]
pub struct FzfOptions {
    pub multi: bool,
    pub ansi: bool,
    pub reverse: bool,
    pub header: Option<u8>,
    pub delimiter: Option<String>,
    pub with_nth: Option<String>,
    pub preview: Option<String>,
    pub preview_window: Option<String>,
    pub bind: Option<String>,
    pub height: Option<String>,
}

/// The mathematical model of `FzfOptions`, with every string abstracted to
/// its character sequence.
pub struct FzfOptionsModel {
    pub multi: bool,
    pub ansi: bool,
    pub reverse: bool,
    pub header: Option<u8>,
    pub delimiter: Option<Seq<char>>,
    pub with_nth: Option<Seq<char>>,
    pub preview: Option<Seq<char>>,
    pub preview_window: Option<Seq<char>>,
    pub bind: Option<Seq<char>>,
    pub height: Option<Seq<char>>,
}

/// An optional string, abstracted to its character sequence.
pub open spec fn opt_view(v: Option<String>) -> Option<Seq<char>> {
    match v {
        Some(s) => Some(s@),
        None => None,
    }
}

impl View for FzfOptions {
    type V = FzfOptionsModel;

    open spec fn view(&self) -> FzfOptionsModel {
        FzfOptionsModel {
            multi: self.multi,
            ansi: self.ansi,
            reverse: self.reverse,
            header: self.header,
            delimiter: opt_view(self.delimiter),
            with_nth: opt_view(self.with_nth),
            preview: opt_view(self.preview),
            preview_window: opt_view(self.preview_window),
            bind: opt_view(self.bind),
            height: opt_view(self.height),
        }
    }
}

/// The model of the default option set: everything off.
pub open spec fn default_options() -> FzfOptionsModel {
    FzfOptionsModel {
        multi: false,
        ansi: false,
        reverse: false,
        header: None,
        delimiter: None,
        with_nth: None,
        preview: None,
        preview_window: None,
        bind: None,
        height: None,
    }
}

impl FzfOptions {
    pub fn new() -> (r: Self)
        ensures
            r@ == default_options(),
    {
        FzfOptions {
            multi: false,
            ansi: false,
            reverse: false,
            header: None,
            delimiter: None,
            with_nth: None,
            preview: None,
            preview_window: None,
            bind: None,
            height: None,
        }
    }
}

/// The decimal digits of `n`, most significant first.
pub open spec fn dec_text(n: nat) -> Seq<char>
    decreases n,
{
    if n < 10 {
        digit_text(n)
    } else {
        dec_text(n / 10) + digit_text(n % 10)
    }
}

/// One decimal digit as text; values ten and above do not occur.
pub open spec fn digit_text(d: nat) -> Seq<char> {
    if d == 0 {
        "0"@
    } else if d == 1 {
        "1"@
    } else if d == 2 {
        "2"@
    } else if d == 3 {
        "3"@
    } else if d == 4 {
        "4"@
    } else if d == 5 {
        "5"@
    } else if d == 6 {
        "6"@
    } else if d == 7 {
        "7"@
    } else if d == 8 {
        "8"@
    } else {
        "9"@
    }
}

fn digit_str(d: u8) -> (r: &'static str)
    requires
        d < 10,
    ensures
        r@ == digit_text(d as nat),
{
    if d == 0 {
        "0"
    } else if d == 1 {
        "1"
    } else if d == 2 {
        "2"
    } else if d == 3 {
        "3"
    } else if d == 4 {
        "4"
    } else if d == 5 {
        "5"
    } else if d == 6 {
        "6"
    } else if d == 7 {
        "7"
    } else if d == 8 {
        "8"
    } else {
        "9"
    }
}

/// Appends the decimal rendering of `n` to `out`.
fn append_dec_u8(out: &mut String, n: u8)
    ensures
        final(out)@ == old(out)@ + dec_text(n as nat),
    decreases n,
{
    if n >= 10 {
        append_dec_u8(out, n / 10);
        let d = digit_str(n % 10);
        out.append(d);
        proof {
            assert(final(out)@ =~= old(out)@ + dec_text(n as nat));
        }
    } else {
        let d = digit_str(n);
        out.append(d);
    }
}

/// A boolean flag's contribution to the command line.
pub open spec fn flag_text(on: bool, flag: Seq<char>) -> Seq<char> {
    if on {
        flag
    } else {
        Seq::empty()
    }
}

/// The `--header-lines` fragment.
pub open spec fn header_text(h: Option<u8>) -> Seq<char> {
    match h {
        Some(n) => " --header-lines="@ + dec_text(n as nat) + " "@,
        None => Seq::empty(),
    }
}

/// An optional string option's fragment: prefix, value, suffix.
pub open spec fn opt_text(prefix: Seq<char>, v: Option<Seq<char>>, suffix: Seq<char>) -> Seq<char> {
    match v {
        Some(s) => prefix + s + suffix,
        None => Seq::empty(),
    }
}

fn append_flag(out: &mut String, on: bool, flag: &str)
    ensures
        final(out)@ == old(out)@ + flag_text(on, flag@),
{
    if on {
        out.append(flag);
    } else {
        proof {
            assert(final(out)@ =~= old(out)@ + flag_text(on, flag@));
        }
    }
}

fn append_header(out: &mut String, h: Option<u8>)
    ensures
        final(out)@ == old(out)@ + header_text(h),
{
    match h {
        Some(n) => {
            out.append(" --header-lines=");
            append_dec_u8(out, n);
            out.append(" ");
            proof {
                assert(final(out)@ =~= old(out)@ + header_text(h));
            }
        },
        None => {
            proof {
                assert(final(out)@ =~= old(out)@ + header_text(h));
            }
        },
    }
}

fn append_opt(out: &mut String, prefix: &str, v: &Option<String>, suffix: &str)
    ensures
        final(out)@ == old(out)@ + opt_text(prefix@, opt_view(*v), suffix@),
{
    match v {
        Some(s) => {
            out.append(prefix);
            out.append(s.as_str());
            out.append(suffix);
            proof {
                assert(final(out)@ =~= old(out)@ + opt_text(prefix@, opt_view(*v), suffix@));
            }
        },
        None => {
            proof {
                assert(final(out)@ =~= old(out)@ + opt_text(prefix@, opt_view(*v), suffix@));
            }
        },
    }
}

/// The fzf command line that `FzfBuilder::build` produces from an option
/// set: `fzf ` followed by one fragment per set option, in a fixed order.
pub open spec fn build_text(o: FzfOptionsModel) -> Seq<char> {
    "fzf "@ + flag_text(o.multi, "--multi "@) + flag_text(o.ansi, "--ansi "@) + flag_text(
        o.reverse,
        "--reverse "@,
    ) + header_text(o.header) + opt_text(" --delimiter="@, o.delimiter, " "@) + opt_text(
        "--with-nth="@,
        o.with_nth,
        " "@,
    ) + opt_text("--preview="@, o.preview, " "@) + opt_text(
        "--preview-window="@,
        o.preview_window,
        " "@,
    ) + opt_text("--bind='"@, o.bind, "' "@) + opt_text("--height="@, o.height, " "@)
}

/// Builder for an fzf invocation string.
#[derive(Debug, Clone)]
pub struct FzfBuilder {
    pub options: FzfOptions,
}

impl FzfBuilder {
    pub fn new() -> (r: Self)
        ensures
            r.options@ == default_options(),
    {
        FzfBuilder { options: FzfOptions::new() }
    }

    pub fn multi(self) -> (r: Self)
        ensures
            r.options@ == (FzfOptionsModel { multi: true, ..self.options@ }),
    {
        let mut b = self;
        b.options.multi = true;
        b
    }

    pub fn ansi(self) -> (r: Self)
        ensures
            r.options@ == (FzfOptionsModel { ansi: true, ..self.options@ }),
    {
        let mut b = self;
        b.options.ansi = true;
        b
    }

    pub fn reverse(self) -> (r: Self)
        ensures
            r.options@ == (FzfOptionsModel { reverse: true, ..self.options@ }),
    {
        let mut b = self;
        b.options.reverse = true;
        b
    }

    pub fn header(self, header: u8) -> (r: Self)
        ensures
            r.options@ == (FzfOptionsModel { header: Some(header), ..self.options@ }),
    {
        let mut b = self;
        b.options.header = Some(header);
        b
    }

    pub fn delimiter(self, delimiter: &str) -> (r: Self)
        ensures
            r.options@ == (FzfOptionsModel { delimiter: Some(delimiter@), ..self.options@ }),
    {
        let mut b = self;
        b.options.delimiter = Some(String::from_str(delimiter));
        b
    }

    pub fn with_nth(self, with_nth: &str) -> (r: Self)
        ensures
            r.options@ == (FzfOptionsModel { with_nth: Some(with_nth@), ..self.options@ }),
    {
        let mut b = self;
        b.options.with_nth = Some(String::from_str(with_nth));
        b
    }

    pub fn preview(self, preview: &str) -> (r: Self)
        ensures
            r.options@ == (FzfOptionsModel { preview: Some(preview@), ..self.options@ }),
    {
        let mut b = self;
        b.options.preview = Some(String::from_str(preview));
        b
    }

    pub fn preview_window(self, window: &str) -> (r: Self)
        ensures
            r.options@ == (FzfOptionsModel { preview_window: Some(window@), ..self.options@ }),
    {
        let mut b = self;
        b.options.preview_window = Some(String::from_str(window));
        b
    }

    pub fn bind(self, bind: &str) -> (r: Self)
        ensures
            r.options@ == (FzfOptionsModel { bind: Some(bind@), ..self.options@ }),
    {
        let mut b = self;
        b.options.bind = Some(String::from_str(bind));
        b
    }

    pub fn height(self, height: &str) -> (r: Self)
        ensures
            r.options@ == (FzfOptionsModel { height: Some(height@), ..self.options@ }),
    {
        let mut b = self;
        b.options.height = Some(String::from_str(height));
        b
    }

    /// Renders the fzf command line for the collected options.
    pub fn build(self) -> (r: String)
        ensures
            r@ == build_text(self.options@),
    {
        let mut command = String::from_str("fzf ");
        append_flag(&mut command, self.options.multi, "--multi ");
        append_flag(&mut command, self.options.ansi, "--ansi ");
        append_flag(&mut command, self.options.reverse, "--reverse ");
        append_header(&mut command, self.options.header);
        append_opt(&mut command, " --delimiter=", &self.options.delimiter, " ");
        append_opt(&mut command, "--with-nth=", &self.options.with_nth, " ");
        append_opt(&mut command, "--preview=", &self.options.preview, " ");
        append_opt(&mut command, "--preview-window=", &self.options.preview_window, " ");
        append_opt(&mut command, "--bind='", &self.options.bind, "' ");
        append_opt(&mut command, "--height=", &self.options.height, " ");
        command
    }
}

} // verus!
