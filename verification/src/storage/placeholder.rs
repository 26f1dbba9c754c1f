use vstd::prelude::*;

use crate::commands::commands::{pipeline_text, SnipsterCommand};
use crate::commands::fzf_builder::{default_options, FzfBuilder, FzfOptionsModel};
use crate::error::SnipsterError;
use crate::storage::file::Snippet;
use crate::text;

verus! {

/// The closed taxonomy of placeholder kinds.  Each kind but `Unknown`
/// corresponds to exactly one canonical token spelling (case-sensitive,
/// angle-bracket delimited); `Unknown` carries the unrecognized token text
/// verbatim, angle brackets included.
#[derive(Debug, Clone)]
pub enum PlaceHolder {
    PID,
    File,
    Directory,
    Container,
    Image,
    Port,
    User,
    Group,
    Command,
    Package,
    Interface,
    Service,
    IPAddress,
    URL,
    Device,
    Disk,
    Shell,
    Date,
    Time,
    Signal,
    History,
    Unknown(String),
}

/// The mathematical model of a placeholder kind: as `PlaceHolder`, with the
/// unknown token text abstracted to its character sequence.
pub enum PlaceHolderModel {
    PID,
    File,
    Directory,
    Container,
    Image,
    Port,
    User,
    Group,
    Command,
    Package,
    Interface,
    Service,
    IPAddress,
    URL,
    Device,
    Disk,
    Shell,
    Date,
    Time,
    Signal,
    History,
    Unknown(Seq<char>),
}

impl View for PlaceHolder {
    type V = PlaceHolderModel;

    open spec fn view(&self) -> PlaceHolderModel {
        match self {
            PlaceHolder::PID => PlaceHolderModel::PID,
            PlaceHolder::File => PlaceHolderModel::File,
            PlaceHolder::Directory => PlaceHolderModel::Directory,
            PlaceHolder::Container => PlaceHolderModel::Container,
            PlaceHolder::Image => PlaceHolderModel::Image,
            PlaceHolder::Port => PlaceHolderModel::Port,
            PlaceHolder::User => PlaceHolderModel::User,
            PlaceHolder::Group => PlaceHolderModel::Group,
            PlaceHolder::Command => PlaceHolderModel::Command,
            PlaceHolder::Package => PlaceHolderModel::Package,
            PlaceHolder::Interface => PlaceHolderModel::Interface,
            PlaceHolder::Service => PlaceHolderModel::Service,
            PlaceHolder::IPAddress => PlaceHolderModel::IPAddress,
            PlaceHolder::URL => PlaceHolderModel::URL,
            PlaceHolder::Device => PlaceHolderModel::Device,
            PlaceHolder::Disk => PlaceHolderModel::Disk,
            PlaceHolder::Shell => PlaceHolderModel::Shell,
            PlaceHolder::Date => PlaceHolderModel::Date,
            PlaceHolder::Time => PlaceHolderModel::Time,
            PlaceHolder::Signal => PlaceHolderModel::Signal,
            PlaceHolder::History => PlaceHolderModel::History,
            PlaceHolder::Unknown(s) => PlaceHolderModel::Unknown(s@),
        }
    }
}

impl DeepView for PlaceHolder {
    type V = PlaceHolderModel;

    open spec fn deep_view(&self) -> PlaceHolderModel {
        self.view()
    }
}

/// The canonical token spelling of a kind; for `Unknown`, the carried text
/// itself.
pub open spec fn canonical_text(k: PlaceHolderModel) -> Seq<char> {
    match k {
        PlaceHolderModel::PID => "<PID>"@,
        PlaceHolderModel::File => "<file>"@,
        PlaceHolderModel::Directory => "<directory>"@,
        PlaceHolderModel::Container => "<container>"@,
        PlaceHolderModel::Image => "<image>"@,
        PlaceHolderModel::Port => "<port>"@,
        PlaceHolderModel::User => "<user>"@,
        PlaceHolderModel::Group => "<group>"@,
        PlaceHolderModel::Command => "<command>"@,
        PlaceHolderModel::Package => "<package>"@,
        PlaceHolderModel::Interface => "<interface>"@,
        PlaceHolderModel::Service => "<service>"@,
        PlaceHolderModel::IPAddress => "<ip_address>"@,
        PlaceHolderModel::URL => "<url>"@,
        PlaceHolderModel::Device => "<device>"@,
        PlaceHolderModel::Disk => "<disk>"@,
        PlaceHolderModel::Shell => "<shell>"@,
        PlaceHolderModel::Date => "<date>"@,
        PlaceHolderModel::Time => "<time>"@,
        PlaceHolderModel::Signal => "<signal>"@,
        PlaceHolderModel::History => "<history>"@,
        PlaceHolderModel::Unknown(raw) => raw,
    }
}

/// Classification of one token text against the canonical spelling table:
/// a pure function of the literal text, with unmatched text mapped to
/// `Unknown` carrying that text verbatim.
pub open spec fn classify(t: Seq<char>) -> PlaceHolderModel {
    if t == "<PID>"@ {
        PlaceHolderModel::PID
    } else if t == "<file>"@ {
        PlaceHolderModel::File
    } else if t == "<directory>"@ {
        PlaceHolderModel::Directory
    } else if t == "<container>"@ {
        PlaceHolderModel::Container
    } else if t == "<image>"@ {
        PlaceHolderModel::Image
    } else if t == "<port>"@ {
        PlaceHolderModel::Port
    } else if t == "<user>"@ {
        PlaceHolderModel::User
    } else if t == "<group>"@ {
        PlaceHolderModel::Group
    } else if t == "<command>"@ {
        PlaceHolderModel::Command
    } else if t == "<package>"@ {
        PlaceHolderModel::Package
    } else if t == "<interface>"@ {
        PlaceHolderModel::Interface
    } else if t == "<service>"@ {
        PlaceHolderModel::Service
    } else if t == "<ip_address>"@ {
        PlaceHolderModel::IPAddress
    } else if t == "<url>"@ {
        PlaceHolderModel::URL
    } else if t == "<device>"@ {
        PlaceHolderModel::Device
    } else if t == "<disk>"@ {
        PlaceHolderModel::Disk
    } else if t == "<shell>"@ {
        PlaceHolderModel::Shell
    } else if t == "<date>"@ {
        PlaceHolderModel::Date
    } else if t == "<time>"@ {
        PlaceHolderModel::Time
    } else if t == "<history>"@ {
        PlaceHolderModel::History
    } else if t == "<signal>"@ {
        PlaceHolderModel::Signal
    } else {
        PlaceHolderModel::Unknown(t)
    }
}

/// Whether `t` is one of the canonical spellings.
pub open spec fn known_token(t: Seq<char>) -> bool {
    !(classify(t) is Unknown)
}

/// The classified placeholders of the template scan starting at `i`:
/// one entry per token, in order of occurrence.
pub open spec fn kinds_from(s: Seq<char>, i: int) -> Seq<PlaceHolderModel>
    decreases s.len() - i,
{
    if i < 0 || i >= s.len() {
        Seq::empty()
    } else if s[i] == '<' {
        match text::first_close_from(s, i + 1) {
            Some(q) => {
                if i + 2 <= q && q + 1 <= s.len() {
                    seq![classify(s.subrange(i, q + 1))] + kinds_from(s, q + 1)
                } else {
                    kinds_from(s, i + 1)
                }
            },
            None => kinds_from(s, i + 1),
        }
    } else {
        kinds_from(s, i + 1)
    }
}

/// The ordered placeholder list of a template.
pub open spec fn extract_spec(s: Seq<char>) -> Seq<PlaceHolderModel> {
    kinds_from(s, 0)
}

/// The classified scan is the token scan, classified entry by entry.
pub proof fn lemma_kinds_are_classified_tokens(s: Seq<char>, i: int)
    requires
        0 <= i,
    ensures
        kinds_from(s, i).len() == text::tokens_from(s, i).len(),
        forall|k: int| 0 <= k < kinds_from(s, i).len() ==> #[trigger] kinds_from(s, i)[k]
            == classify(text::tokens_from(s, i)[k]),
    decreases s.len() - i,
{
    if i >= s.len() {
    } else if s[i] == '<' {
        match text::first_close_from(s, i + 1) {
            Some(q) => {
                if i + 2 <= q && q + 1 <= s.len() {
                    lemma_kinds_are_classified_tokens(s, q + 1);
                    assert forall|k: int| 0 <= k < kinds_from(s, i).len() implies #[trigger] kinds_from(
                        s,
                        i,
                    )[k] == classify(text::tokens_from(s, i)[k]) by {
                        if k == 0 {
                        } else {
                            assert(kinds_from(s, i)[k] == kinds_from(s, q + 1)[k - 1]);
                            assert(text::tokens_from(s, i)[k] == text::tokens_from(s, q + 1)[k - 1]);
                        }
                    }
                } else {
                    lemma_kinds_are_classified_tokens(s, i + 1);
                    assert forall|k: int| 0 <= k < kinds_from(s, i).len() implies #[trigger] kinds_from(
                        s,
                        i,
                    )[k] == classify(text::tokens_from(s, i)[k]) by {
                        assert(kinds_from(s, i)[k] == kinds_from(s, i + 1)[k]);
                        assert(text::tokens_from(s, i)[k] == text::tokens_from(s, i + 1)[k]);
                    }
                }
            },
            None => {
                lemma_kinds_are_classified_tokens(s, i + 1);
                assert forall|k: int| 0 <= k < kinds_from(s, i).len() implies #[trigger] kinds_from(
                    s,
                    i,
                )[k] == classify(text::tokens_from(s, i)[k]) by {
                    assert(kinds_from(s, i)[k] == kinds_from(s, i + 1)[k]);
                    assert(text::tokens_from(s, i)[k] == text::tokens_from(s, i + 1)[k]);
                }
            },
        }
    } else {
        lemma_kinds_are_classified_tokens(s, i + 1);
        assert forall|k: int| 0 <= k < kinds_from(s, i).len() implies #[trigger] kinds_from(s, i)[k]
            == classify(text::tokens_from(s, i)[k]) by {
            assert(kinds_from(s, i)[k] == kinds_from(s, i + 1)[k]);
            assert(text::tokens_from(s, i)[k] == text::tokens_from(s, i + 1)[k]);
        }
    }
}

// ---------------------------------------------------------------------------
// The resolver table: per kind, the enumeration command and the fzf
// invocation through which the user picks one candidate.
// ---------------------------------------------------------------------------

/// The option set of resolvers whose enumeration output carries a header
/// line and colors: ansi, reverse, one header line, one key binding.
pub open spec fn listing_options(bind: Seq<char>) -> FzfOptionsModel {
    FzfOptionsModel {
        ansi: true,
        reverse: true,
        header: Some(1u8),
        bind: Some(bind),
        ..default_options()
    }
}

/// The option set of plain resolvers: defaults plus one key binding.
pub open spec fn plain_options(bind: Seq<char>) -> FzfOptionsModel {
    FzfOptionsModel { bind: Some(bind), ..default_options() }
}

/// The shell command whose output enumerates the candidate values of a
/// kind.  `Unknown` has no resolver and no command.
pub open spec fn resolver_command(k: PlaceHolderModel) -> Seq<char> {
    match k {
        PlaceHolderModel::PID => "ps aux"@,
        PlaceHolderModel::File => "find ~ -type f"@,
        PlaceHolderModel::Directory => "find ~ -type d"@,
        PlaceHolderModel::Container => "docker ps"@,
        PlaceHolderModel::Image => "docker images"@,
        PlaceHolderModel::Port => "netstat -tuln"@,
        PlaceHolderModel::User => "getent passwd"@,
        PlaceHolderModel::Group => "getent group"@,
        PlaceHolderModel::Command => "compgen -c"@,
        PlaceHolderModel::Package => "dpkg --get-selections"@,
        PlaceHolderModel::Interface => "ip link show"@,
        PlaceHolderModel::Service => "systemctl list-units --type=service"@,
        PlaceHolderModel::IPAddress => "ip a"@,
        PlaceHolderModel::URL => "curl --list-only"@,
        PlaceHolderModel::Device => "lsblk"@,
        PlaceHolderModel::Disk => "lsblk -o NAME,SIZE,TYPE,MOUNTPOINT"@,
        PlaceHolderModel::Shell => "cat /etc/shells"@,
        PlaceHolderModel::Date => "date"@,
        PlaceHolderModel::Time => "date +'%H:%M:%S'"@,
        PlaceHolderModel::Signal => "kill -l"@,
        PlaceHolderModel::History => "history"@,
        PlaceHolderModel::Unknown(_) => Seq::empty(),
    }
}

/// The selection rule of a kind: which fzf options frame the pick, and in
/// the binding, which column of the chosen line becomes the value.
pub open spec fn resolver_options(k: PlaceHolderModel) -> FzfOptionsModel {
    match k {
        PlaceHolderModel::PID => listing_options("enter:become(echo {2})"@),
        PlaceHolderModel::Container => listing_options("enter:become(echo {1})"@),
        PlaceHolderModel::Image => listing_options("enter:become(echo {3})"@),
        PlaceHolderModel::Port => listing_options("enter:become(echo {1})"@),
        PlaceHolderModel::Service => listing_options("enter:become(echo {1})"@),
        _ => plain_options("enter:become(echo {1})"@),
    }
}

/// The full shell pipeline that resolves one occurrence of a kind.
pub open spec fn resolution_pipeline(k: PlaceHolderModel) -> Seq<char> {
    pipeline_text(resolver_options(k), resolver_command(k))
}

/// Index of the first `Unknown` entry, `ks.len()` when there is none.
pub open spec fn first_unknown(ks: Seq<PlaceHolderModel>) -> int
    decreases ks.len(),
{
    if ks.len() == 0 {
        0
    } else if ks[0] is Unknown {
        0
    } else {
        1 + first_unknown(ks.drop_first())
    }
}

pub proof fn lemma_first_unknown_at(ks: Seq<PlaceHolderModel>, i: int)
    requires
        0 <= i < ks.len(),
        ks[i] is Unknown,
        forall|k: int| 0 <= k < i ==> !((#[trigger] ks[k]) is Unknown),
    ensures
        first_unknown(ks) == i,
    decreases i,
{
    if i == 0 {
    } else {
        assert forall|k: int| 0 <= k < i - 1 implies !((#[trigger] ks.drop_first()[k]) is Unknown) by {
            assert(ks.drop_first()[k] == ks[k + 1]);
        }
        assert(ks.drop_first()[i - 1] == ks[i]);
        lemma_first_unknown_at(ks.drop_first(), i - 1);
    }
}

// ---------------------------------------------------------------------------
// The substitution model.
// ---------------------------------------------------------------------------

/// One substitution step: the first remaining occurrence of the kind's
/// canonical token text is replaced by the value — except for `History`,
/// whose resolved value replaces the whole working string.
pub open spec fn subst_step(cmd: Seq<char>, k: PlaceHolderModel, v: Seq<char>) -> Seq<char> {
    match k {
        PlaceHolderModel::History => v,
        _ => text::replace_first(cmd, canonical_text(k), v),
    }
}

/// The substitution steps applied in placeholder order, each to the result
/// of the one before.
pub open spec fn subst_all(cmd: Seq<char>, ks: Seq<PlaceHolderModel>, vs: Seq<Seq<char>>) -> Seq<
    char,
>
    decreases ks.len(),
{
    if ks.len() == 0 || vs.len() == 0 {
        cmd
    } else {
        subst_all(subst_step(cmd, ks[0], vs[0]), ks.drop_first(), vs.drop_first())
    }
}

/// The pipeline of a resolver that pages through a headed, colored listing.
fn listing_pipeline(bind: &str, command: &str) -> (r: String)
    ensures
        r@ == pipeline_text(listing_options(bind@), command@),
{
    let fzf = FzfBuilder::new().ansi().reverse().header(1).bind(bind);
    SnipsterCommand::fzf_pipeline(fzf, command)
}

/// The pipeline of a plain resolver: default fzf plus one key binding.
fn plain_pipeline(bind: &str, command: &str) -> (r: String)
    ensures
        r@ == pipeline_text(plain_options(bind@), command@),
{
    let fzf = FzfBuilder::new().bind(bind);
    SnipsterCommand::fzf_pipeline(fzf, command)
}

impl PlaceHolder {
    /// Classification of one literal token text against the spelling table.
    pub fn from_string(s: &str) -> (p: PlaceHolder)
        ensures
            p@ == classify(s@),
    {
        if text::str_eq(s, "<PID>") {
            PlaceHolder::PID
        } else if text::str_eq(s, "<file>") {
            PlaceHolder::File
        } else if text::str_eq(s, "<directory>") {
            PlaceHolder::Directory
        } else if text::str_eq(s, "<container>") {
            PlaceHolder::Container
        } else if text::str_eq(s, "<image>") {
            PlaceHolder::Image
        } else if text::str_eq(s, "<port>") {
            PlaceHolder::Port
        } else if text::str_eq(s, "<user>") {
            PlaceHolder::User
        } else if text::str_eq(s, "<group>") {
            PlaceHolder::Group
        } else if text::str_eq(s, "<command>") {
            PlaceHolder::Command
        } else if text::str_eq(s, "<package>") {
            PlaceHolder::Package
        } else if text::str_eq(s, "<interface>") {
            PlaceHolder::Interface
        } else if text::str_eq(s, "<service>") {
            PlaceHolder::Service
        } else if text::str_eq(s, "<ip_address>") {
            PlaceHolder::IPAddress
        } else if text::str_eq(s, "<url>") {
            PlaceHolder::URL
        } else if text::str_eq(s, "<device>") {
            PlaceHolder::Device
        } else if text::str_eq(s, "<disk>") {
            PlaceHolder::Disk
        } else if text::str_eq(s, "<shell>") {
            PlaceHolder::Shell
        } else if text::str_eq(s, "<date>") {
            PlaceHolder::Date
        } else if text::str_eq(s, "<time>") {
            PlaceHolder::Time
        } else if text::str_eq(s, "<history>") {
            PlaceHolder::History
        } else if text::str_eq(s, "<signal>") {
            PlaceHolder::Signal
        } else {
            PlaceHolder::Unknown(String::from_str(s))
        }
    }

    /// The canonical token spelling of this kind, as substitution searches
    /// for it; for `Unknown`, the carried raw text.
    pub fn token_text(&self) -> (r: String)
        ensures
            r@ == canonical_text(self@),
    {
        match self {
            PlaceHolder::PID => String::from_str("<PID>"),
            PlaceHolder::File => String::from_str("<file>"),
            PlaceHolder::Directory => String::from_str("<directory>"),
            PlaceHolder::Container => String::from_str("<container>"),
            PlaceHolder::Image => String::from_str("<image>"),
            PlaceHolder::Port => String::from_str("<port>"),
            PlaceHolder::User => String::from_str("<user>"),
            PlaceHolder::Group => String::from_str("<group>"),
            PlaceHolder::Command => String::from_str("<command>"),
            PlaceHolder::Package => String::from_str("<package>"),
            PlaceHolder::Interface => String::from_str("<interface>"),
            PlaceHolder::Service => String::from_str("<service>"),
            PlaceHolder::IPAddress => String::from_str("<ip_address>"),
            PlaceHolder::URL => String::from_str("<url>"),
            PlaceHolder::Device => String::from_str("<device>"),
            PlaceHolder::Disk => String::from_str("<disk>"),
            PlaceHolder::Shell => String::from_str("<shell>"),
            PlaceHolder::Date => String::from_str("<date>"),
            PlaceHolder::Time => String::from_str("<time>"),
            PlaceHolder::Signal => String::from_str("<signal>"),
            PlaceHolder::History => String::from_str("<history>"),
            PlaceHolder::Unknown(s) => s.clone(),
        }
    }

    /// The resolution procedure of this kind: the shell pipeline that
    /// enumerates its candidates and lets the user pick one.  Running the
    /// pipeline is the caller's business.  For `Unknown`, no enumeration
    /// exists and resolution fails at once with the raw token text.
    pub fn handle(&self) -> (r: Result<String, SnipsterError>)
        ensures
            !(self@ is Unknown) ==> (r matches Ok(p) && p@ == resolution_pipeline(self@)),
            self@ is Unknown ==> (r matches Err(e) && e matches SnipsterError::UnknownPlaceholder(
                raw,
            ) && raw@ == self@->Unknown_0),
    {
        match self {
            PlaceHolder::PID => Ok(listing_pipeline("enter:become(echo {2})", "ps aux")),
            PlaceHolder::File => Ok(plain_pipeline("enter:become(echo {1})", "find ~ -type f")),
            PlaceHolder::Directory => Ok(plain_pipeline("enter:become(echo {1})", "find ~ -type d")),
            PlaceHolder::Container => Ok(listing_pipeline("enter:become(echo {1})", "docker ps")),
            PlaceHolder::Image => Ok(listing_pipeline("enter:become(echo {3})", "docker images")),
            PlaceHolder::Port => Ok(listing_pipeline("enter:become(echo {1})", "netstat -tuln")),
            PlaceHolder::User => Ok(plain_pipeline("enter:become(echo {1})", "getent passwd")),
            PlaceHolder::Group => Ok(plain_pipeline("enter:become(echo {1})", "getent group")),
            PlaceHolder::Command => Ok(plain_pipeline("enter:become(echo {1})", "compgen -c")),
            PlaceHolder::Package => Ok(plain_pipeline("enter:become(echo {1})", "dpkg --get-selections")),
            PlaceHolder::Interface => Ok(plain_pipeline("enter:become(echo {1})", "ip link show")),
            PlaceHolder::Service => Ok(listing_pipeline("enter:become(echo {1})", "systemctl list-units --type=service")),
            PlaceHolder::IPAddress => Ok(plain_pipeline("enter:become(echo {1})", "ip a")),
            PlaceHolder::URL => Ok(plain_pipeline("enter:become(echo {1})", "curl --list-only")),
            PlaceHolder::Device => Ok(plain_pipeline("enter:become(echo {1})", "lsblk")),
            PlaceHolder::Disk => Ok(plain_pipeline("enter:become(echo {1})", "lsblk -o NAME,SIZE,TYPE,MOUNTPOINT")),
            PlaceHolder::Shell => Ok(plain_pipeline("enter:become(echo {1})", "cat /etc/shells")),
            PlaceHolder::Date => Ok(plain_pipeline("enter:become(echo {1})", "date")),
            PlaceHolder::Time => Ok(plain_pipeline("enter:become(echo {1})", "date +'%H:%M:%S'")),
            PlaceHolder::Signal => Ok(plain_pipeline("enter:become(echo {1})", "kill -l")),
            PlaceHolder::History => Ok(plain_pipeline("enter:become(echo {1})", "history")),
            PlaceHolder::Unknown(val) => Err(SnipsterError::UnknownPlaceholder(val.clone())),
        }
    }

    /// Substitutes the resolved values into the snippet's template, one
    /// value per placeholder occurrence in order, each filling the first
    /// remaining occurrence of its kind's canonical token text (`History`
    /// replaces the whole working string).  All-or-nothing: when the
    /// counts differ, nothing is substituted and the mismatch is reported.
    pub fn replace_with_value(snippet: &Snippet, values: &Vec<String>) -> (r: Result<
        String,
        SnipsterError,
    >)
        ensures
            snippet.placeholders@.len() == values@.len() ==> (r matches Ok(cmd) && cmd@
                == subst_all(
                snippet.content@,
                snippet.placeholders.deep_view(),
                values.deep_view(),
            )),
            snippet.placeholders@.len() != values@.len() ==> (r matches Err(e)
                && e is CountMismatch),
    {
        if snippet.placeholders.len() != values.len() {
            return Err(SnipsterError::CountMismatch);
        }
        let ghost ks = snippet.placeholders.deep_view();
        let ghost vs = values.deep_view();
        let mut command = snippet.content.clone();
        let n = snippet.placeholders.len();
        let mut i: usize = 0;
        proof {
            assert(ks.skip(0) =~= ks);
            assert(vs.skip(0) =~= vs);
        }
        while i < n
            invariant
                n == snippet.placeholders@.len(),
                n == values@.len(),
                ks == snippet.placeholders.deep_view(),
                vs == values.deep_view(),
                ks.len() == n,
                vs.len() == n,
                0 <= i <= n,
                subst_all(command@, ks.skip(i as int), vs.skip(i as int)) == subst_all(
                    snippet.content@,
                    ks,
                    vs,
                ),
            decreases n - i,
        {
            let ghost cmd0 = command@;
            let ph = &snippet.placeholders[i];
            match ph {
                PlaceHolder::History => {
                    command = values[i].clone();
                },
                _ => {
                    let pat = ph.token_text();
                    command = text::replace_first_str(
                        command.as_str(),
                        pat.as_str(),
                        values[i].as_str(),
                    );
                },
            }
            proof {
                assert(ks[i as int] == snippet.placeholders@[i as int]@);
                assert(vs[i as int] == values@[i as int]@);
                assert(command@ == subst_step(cmd0, ks[i as int], vs[i as int]));
                assert(ks.skip(i as int)[0] == ks[i as int]);
                assert(vs.skip(i as int)[0] == vs[i as int]);
                assert(ks.skip(i as int).drop_first() =~= ks.skip(i as int + 1));
                assert(vs.skip(i as int).drop_first() =~= vs.skip(i as int + 1));
                assert(subst_all(cmd0, ks.skip(i as int), vs.skip(i as int)) == subst_all(
                    command@,
                    ks.skip(i as int + 1),
                    vs.skip(i as int + 1),
                ));
            }
            i = i + 1;
        }
        proof {
            assert(ks.skip(n as int).len() == 0);
            assert(subst_all(command@, ks.skip(n as int), vs.skip(n as int)) == command@);
        }
        Ok(command)
    }

    /// Scans a template left to right for all non-overlapping placeholder
    /// tokens and classifies each against the spelling table, in the order
    /// found.  An empty template yields an empty list; the scan itself
    /// cannot fail.
    pub fn extract_placeholders(content: &str) -> (r: Result<Vec<PlaceHolder>, String>)
        ensures
            r matches Ok(ps) && ps.deep_view() == extract_spec(content@),
    {
        let ghost s = content@;
        let n = content.unicode_len();
        let mut out: Vec<PlaceHolder> = Vec::new();
        let mut i: usize = 0;
        while i < n
            invariant
                n == s.len(),
                s == content@,
                0 <= i <= n,
                out.deep_view() + kinds_from(s, i as int) =~= extract_spec(s),
            decreases n - i,
        {
            let c = content.get_char(i);
            if c == '<' {
                let mut j: usize = i + 1;
                let mut found: bool = false;
                while !found && j < n
                    invariant
                        n == s.len(),
                        s == content@,
                        i + 1 <= j <= n,
                        forall|k: int| i + 1 <= k < j ==> s[k] != '>',
                        found ==> j < n && s[j as int] == '>',
                    decreases n - j + (if found { 0int } else { 1int }),
                {
                    if content.get_char(j) == '>' {
                        found = true;
                    } else {
                        j = j + 1;
                    }
                }
                proof {
                    text::lemma_first_close_props(s, i + 1);
                    if found {
                        assert(text::first_close_from(s, i + 1) == Some(j as int));
                    } else {
                        assert(j == n);
                        assert(text::first_close_from(s, i + 1) is None);
                    }
                }
                if found && j >= i + 2 {
                    let token = content.substring_char(i, j + 1);
                    let ph = PlaceHolder::from_string(token);
                    proof {
                        assert(kinds_from(s, i as int) == seq![
                            classify(s.subrange(i as int, j + 1)),
                        ] + kinds_from(s, j + 1));
                    }
                    let ghost old_deep = out.deep_view();
                    out.push(ph);
                    proof {
                        assert(out.deep_view() =~= old_deep + seq![ph@]);
                        assert(out.deep_view() + kinds_from(s, j + 1) =~= extract_spec(s));
                    }
                    i = j + 1;
                } else {
                    proof {
                        assert(kinds_from(s, i as int) == kinds_from(s, i + 1));
                    }
                    i = i + 1;
                }
            } else {
                proof {
                    assert(kinds_from(s, i as int) == kinds_from(s, i + 1));
                }
                i = i + 1;
            }
        }
        proof {
            assert(out.deep_view() =~= extract_spec(s));
        }
        Ok(out)
    }
}

// ---------------------------------------------------------------------------
// The laws of the engine.
// ---------------------------------------------------------------------------

/// Classification inverts to the classified text: substitution searching
/// for `canonical_text(classify(tok))` searches for `tok` itself.
pub proof fn lemma_canonical_classify(t: Seq<char>)
    ensures
        canonical_text(classify(t)) == t,
{
}

/// Each non-`Unknown` kind is the classification of its own canonical
/// spelling: the spelling table is one-to-one on the closed kinds.
pub proof fn lemma_classify_canonical(k: PlaceHolderModel)
    requires
        !(k is Unknown),
    ensures
        classify(canonical_text(k)) == k,
{
    // The spellings are pairwise distinct: differing lengths settle most
    // pairs, a differing character the same-length ones.
    reveal_strlit("<PID>");
    reveal_strlit("<file>");
    reveal_strlit("<directory>");
    reveal_strlit("<container>");
    reveal_strlit("<image>");
    reveal_strlit("<port>");
    reveal_strlit("<user>");
    reveal_strlit("<group>");
    reveal_strlit("<command>");
    reveal_strlit("<package>");
    reveal_strlit("<interface>");
    reveal_strlit("<service>");
    reveal_strlit("<ip_address>");
    reveal_strlit("<url>");
    reveal_strlit("<device>");
    reveal_strlit("<disk>");
    reveal_strlit("<shell>");
    reveal_strlit("<date>");
    reveal_strlit("<time>");
    reveal_strlit("<signal>");
    reveal_strlit("<history>");
    assert("<PID>"@.len() == 5);
    assert("<file>"@.len() == 6);
    assert("<directory>"@.len() == 11);
    assert("<container>"@.len() == 11);
    assert("<image>"@.len() == 7);
    assert("<port>"@.len() == 6);
    assert("<user>"@.len() == 6);
    assert("<group>"@.len() == 7);
    assert("<command>"@.len() == 9);
    assert("<package>"@.len() == 9);
    assert("<interface>"@.len() == 11);
    assert("<service>"@.len() == 9);
    assert("<ip_address>"@.len() == 12);
    assert("<url>"@.len() == 5);
    assert("<device>"@.len() == 8);
    assert("<disk>"@.len() == 6);
    assert("<shell>"@.len() == 7);
    assert("<date>"@.len() == 6);
    assert("<time>"@.len() == 6);
    assert("<signal>"@.len() == 8);
    assert("<history>"@.len() == 9);
    assert("<PID>"@ != "<url>"@) by {
        assert("<PID>"@[1] != "<url>"@[1]);
    }
    assert("<file>"@ != "<port>"@) by {
        assert("<file>"@[1] != "<port>"@[1]);
    }
    assert("<file>"@ != "<user>"@) by {
        assert("<file>"@[1] != "<user>"@[1]);
    }
    assert("<file>"@ != "<disk>"@) by {
        assert("<file>"@[1] != "<disk>"@[1]);
    }
    assert("<file>"@ != "<date>"@) by {
        assert("<file>"@[1] != "<date>"@[1]);
    }
    assert("<file>"@ != "<time>"@) by {
        assert("<file>"@[1] != "<time>"@[1]);
    }
    assert("<port>"@ != "<user>"@) by {
        assert("<port>"@[1] != "<user>"@[1]);
    }
    assert("<port>"@ != "<disk>"@) by {
        assert("<port>"@[1] != "<disk>"@[1]);
    }
    assert("<port>"@ != "<date>"@) by {
        assert("<port>"@[1] != "<date>"@[1]);
    }
    assert("<port>"@ != "<time>"@) by {
        assert("<port>"@[1] != "<time>"@[1]);
    }
    assert("<user>"@ != "<disk>"@) by {
        assert("<user>"@[1] != "<disk>"@[1]);
    }
    assert("<user>"@ != "<date>"@) by {
        assert("<user>"@[1] != "<date>"@[1]);
    }
    assert("<user>"@ != "<time>"@) by {
        assert("<user>"@[1] != "<time>"@[1]);
    }
    assert("<disk>"@ != "<date>"@) by {
        assert("<disk>"@[2] != "<date>"@[2]);
    }
    assert("<disk>"@ != "<time>"@) by {
        assert("<disk>"@[1] != "<time>"@[1]);
    }
    assert("<date>"@ != "<time>"@) by {
        assert("<date>"@[1] != "<time>"@[1]);
    }
    assert("<image>"@ != "<group>"@) by {
        assert("<image>"@[1] != "<group>"@[1]);
    }
    assert("<image>"@ != "<shell>"@) by {
        assert("<image>"@[1] != "<shell>"@[1]);
    }
    assert("<group>"@ != "<shell>"@) by {
        assert("<group>"@[1] != "<shell>"@[1]);
    }
    assert("<device>"@ != "<signal>"@) by {
        assert("<device>"@[1] != "<signal>"@[1]);
    }
    assert("<command>"@ != "<package>"@) by {
        assert("<command>"@[1] != "<package>"@[1]);
    }
    assert("<command>"@ != "<service>"@) by {
        assert("<command>"@[1] != "<service>"@[1]);
    }
    assert("<command>"@ != "<history>"@) by {
        assert("<command>"@[1] != "<history>"@[1]);
    }
    assert("<package>"@ != "<service>"@) by {
        assert("<package>"@[1] != "<service>"@[1]);
    }
    assert("<package>"@ != "<history>"@) by {
        assert("<package>"@[1] != "<history>"@[1]);
    }
    assert("<service>"@ != "<history>"@) by {
        assert("<service>"@[1] != "<history>"@[1]);
    }
    assert("<directory>"@ != "<container>"@) by {
        assert("<directory>"@[1] != "<container>"@[1]);
    }
    assert("<directory>"@ != "<interface>"@) by {
        assert("<directory>"@[1] != "<interface>"@[1]);
    }
    assert("<container>"@ != "<interface>"@) by {
        assert("<container>"@[1] != "<interface>"@[1]);
    }
    match k {
        PlaceHolderModel::PID => {
            assert(classify(canonical_text(k)) == k);
        },
        PlaceHolderModel::File => {
            assert(classify(canonical_text(k)) == k);
        },
        PlaceHolderModel::Directory => {
            assert(classify(canonical_text(k)) == k);
        },
        PlaceHolderModel::Container => {
            assert(classify(canonical_text(k)) == k);
        },
        PlaceHolderModel::Image => {
            assert(classify(canonical_text(k)) == k);
        },
        PlaceHolderModel::Port => {
            assert(classify(canonical_text(k)) == k);
        },
        PlaceHolderModel::User => {
            assert(classify(canonical_text(k)) == k);
        },
        PlaceHolderModel::Group => {
            assert(classify(canonical_text(k)) == k);
        },
        PlaceHolderModel::Command => {
            assert(classify(canonical_text(k)) == k);
        },
        PlaceHolderModel::Package => {
            assert(classify(canonical_text(k)) == k);
        },
        PlaceHolderModel::Interface => {
            assert(classify(canonical_text(k)) == k);
        },
        PlaceHolderModel::Service => {
            assert(classify(canonical_text(k)) == k);
        },
        PlaceHolderModel::IPAddress => {
            assert(classify(canonical_text(k)) == k);
        },
        PlaceHolderModel::URL => {
            assert(classify(canonical_text(k)) == k);
        },
        PlaceHolderModel::Device => {
            assert(classify(canonical_text(k)) == k);
        },
        PlaceHolderModel::Disk => {
            assert(classify(canonical_text(k)) == k);
        },
        PlaceHolderModel::Shell => {
            assert(classify(canonical_text(k)) == k);
        },
        PlaceHolderModel::Date => {
            assert(classify(canonical_text(k)) == k);
        },
        PlaceHolderModel::Time => {
            assert(classify(canonical_text(k)) == k);
        },
        PlaceHolderModel::Signal => {
            assert(classify(canonical_text(k)) == k);
        },
        PlaceHolderModel::History => {
            assert(classify(canonical_text(k)) == k);
        },
        PlaceHolderModel::Unknown(_) => {
        },
    }
}

/// A token text outside the spelling table classifies as `Unknown` carrying
/// exactly that text, brackets included.
pub proof fn lemma_unknown_token(tok: Seq<char>)
    requires
        !known_token(tok),
    ensures
        classify(tok) == PlaceHolderModel::Unknown(tok),
{
}

/// A template without a placeholder-shaped substring yields no
/// placeholders, and substituting its (empty) placeholder list with an
/// empty value list returns it unchanged.
pub proof fn lemma_no_placeholders(t: Seq<char>)
    requires
        forall|p: int, q: int| !text::token_at(t, p, q),
    ensures
        extract_spec(t).len() == 0,
        subst_all(t, extract_spec(t), Seq::empty()) == t,
{
    text::lemma_no_token_shape_empty(t, 0);
    lemma_kinds_are_classified_tokens(t, 0);
}

/// Extraction yields exactly one entry per non-overlapping token of the
/// template, in order of occurrence: entry k classifies the k-th token
/// text, and every token has the `<...>` shape.
pub proof fn lemma_extract_matches(t: Seq<char>)
    ensures
        extract_spec(t).len() == text::tokens_of(t).len(),
        forall|k: int| 0 <= k < text::tokens_of(t).len() ==> #[trigger] extract_spec(t)[k]
            == classify(text::tokens_of(t)[k]),
        forall|k: int| 0 <= k < text::tokens_of(t).len() ==> text::token_wf(
            #[trigger] text::tokens_of(t)[k],
        ),
{
    lemma_kinds_are_classified_tokens(t, 0);
    text::lemma_tokens_wf(t, 0);
}

/// Substituting kinds classified from token texts, none of them `History`,
/// is repeated first-occurrence replacement of those very texts.
pub proof fn lemma_subst_kinds_texts(
    cmd: Seq<char>,
    ks: Seq<PlaceHolderModel>,
    toks: Seq<Seq<char>>,
    vs: Seq<Seq<char>>,
)
    requires
        ks.len() == toks.len(),
        vs.len() == ks.len(),
        forall|k: int| 0 <= k < ks.len() ==> #[trigger] ks[k] == classify(toks[k]),
        forall|k: int| 0 <= k < ks.len() ==> !((#[trigger] ks[k]) is History),
    ensures
        subst_all(cmd, ks, vs) == text::subst_texts(cmd, toks, vs),
    decreases ks.len(),
{
    if ks.len() == 0 {
    } else {
        lemma_canonical_classify(toks[0]);
        assert(subst_step(cmd, ks[0], vs[0]) == text::replace_first(cmd, toks[0], vs[0]));
        assert forall|k: int| 0 <= k < ks.drop_first().len() implies #[trigger] ks.drop_first()[k]
            == classify(toks.drop_first()[k]) by {
            assert(ks.drop_first()[k] == ks[k + 1]);
            assert(toks.drop_first()[k] == toks[k + 1]);
        }
        assert forall|k: int| 0 <= k < ks.drop_first().len() implies !((
        #[trigger] ks.drop_first()[k]) is History) by {
            assert(ks.drop_first()[k] == ks[k + 1]);
        }
        lemma_subst_kinds_texts(
            text::replace_first(cmd, toks[0], vs[0]),
            ks.drop_first(),
            toks.drop_first(),
            vs.drop_first(),
        );
    }
}

/// The round trip: substituting one angle-free value per extracted
/// placeholder, none of them `History`, replaces the k-th token occurrence
/// with the k-th value and keeps every other template character, as
/// `splice_from` spells out.
pub proof fn lemma_round_trip(t: Seq<char>, vs: Seq<Seq<char>>)
    requires
        vs.len() == extract_spec(t).len(),
        forall|k: int| 0 <= k < vs.len() ==> text::angle_free(#[trigger] vs[k]),
        forall|k: int| 0 <= k < extract_spec(t).len() ==> !((#[trigger] extract_spec(t)[k])
            is History),
    ensures
        subst_all(t, extract_spec(t), vs) == text::splice_from(t, 0, vs),
{
    lemma_kinds_are_classified_tokens(t, 0);
    lemma_subst_kinds_texts(t, extract_spec(t), text::tokens_of(t), vs);
    assert(Seq::<char>::empty() + t.subrange(0, t.len() as int) =~= t);
    text::lemma_subst_splice(t, 0, Seq::empty(), vs);
    assert(Seq::<char>::empty() + text::splice_from(t, 0, vs) =~= text::splice_from(t, 0, vs));
}

/// After substituting one angle-free value per placeholder, the result
/// holds no placeholder token: re-extraction yields the empty list.
pub proof fn lemma_substituted_extracts_empty(t: Seq<char>, vs: Seq<Seq<char>>)
    requires
        vs.len() == extract_spec(t).len(),
        forall|k: int| 0 <= k < vs.len() ==> text::angle_free(#[trigger] vs[k]),
    ensures
        extract_spec(text::splice_from(t, 0, vs)).len() == 0,
{
    lemma_kinds_are_classified_tokens(t, 0);
    text::lemma_splice_benign(t, 0, vs);
    text::lemma_benign_no_tokens(text::splice_from(t, 0, vs));
    lemma_kinds_are_classified_tokens(text::splice_from(t, 0, vs), 0);
}

/// The same, stated on the engine itself: re-extracting from a fully
/// substituted template (angle-free values, no `History`) yields the empty
/// list.
pub proof fn lemma_subst_result_extracts_empty(t: Seq<char>, vs: Seq<Seq<char>>)
    requires
        vs.len() == extract_spec(t).len(),
        forall|k: int| 0 <= k < vs.len() ==> text::angle_free(#[trigger] vs[k]),
        forall|k: int| 0 <= k < extract_spec(t).len() ==> !((#[trigger] extract_spec(t)[k])
            is History),
    ensures
        extract_spec(subst_all(t, extract_spec(t), vs)).len() == 0,
{
    lemma_round_trip(t, vs);
    lemma_substituted_extracts_empty(t, vs);
}

} // verus!
