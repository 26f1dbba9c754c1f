use vstd::prelude::*;

use super::fzf_builder::{build_text, FzfBuilder, FzfOptionsModel};
use crate::error::SnipsterError;
use crate::storage::file::Snippet;
use crate::storage::placeholder::{
    extract_spec, first_unknown, lemma_first_unknown_at, resolution_pipeline, PlaceHolder,
};
use crate::text;

verus! {

/// The shell pipeline that pipes an enumeration command into an fzf
/// invocation, exactly as the runner hands it to the shell.
pub open spec fn pipeline_text(o: FzfOptionsModel, cmd: Seq<char>) -> Seq<char> {
    "\n            "@ + cmd + " | "@ + build_text(o)
}

/// The one-line diagnostic for a failed pipeline: the captured standard
/// error (already trimmed), a space, and a hint when the failure looks like
/// a missing fzf or jq installation.
pub open spec fn failure_message(stderr: Seq<char>) -> Seq<char> {
    stderr + " "@ + if missing_dependency(stderr) {
        "Hint: Ensure fzf and jq are installed."@
    } else {
        Seq::empty()
    }
}

/// Whether the captured standard error reports fzf or jq as not found.
pub open spec fn missing_dependency(stderr: Seq<char>) -> bool {
    text::find_from(stderr, "fzf: command not found"@, 0) is Some || text::find_from(
        stderr,
        "jq: command not found"@,
        0,
    ) is Some
}

pub struct SnipsterCommand;

impl SnipsterCommand {
    /// Composes the shell pipeline for one enumeration command and one fzf
    /// invocation.  Running it is the caller's business; this only decides
    /// what is run.
    pub fn fzf_pipeline(fzf: FzfBuilder, command: &str) -> (r: String)
        ensures
            r@ == pipeline_text(fzf.options@, command@),
    {
        let ghost o = fzf.options@;
        let mut out = String::from_str("\n            ");
        out.append(command);
        out.append(" | ");
        let built = fzf.build();
        out.append(built.as_str());
        proof {
            assert(out@ =~= pipeline_text(o, command@));
        }
        out
    }

    /// Classifies the captured standard error of a failed pipeline into the
    /// user-facing error, attaching the installation hint exactly when the
    /// output names fzf or jq as missing.
    pub fn command_failure(stderr: &str) -> (r: SnipsterError)
        ensures
            r matches SnipsterError::CommandError(m) && m@ == failure_message(stderr@),
    {
        let hinted = text::str_contains(stderr, "fzf: command not found") || text::str_contains(
            stderr,
            "jq: command not found",
        );
        let mut message = String::from_str(stderr);
        if hinted {
            message.append(" ");
            message.append("Hint: Ensure fzf and jq are installed.");
        } else {
            message.append(" ");
        }
        proof {
            assert(message@ =~= failure_message(stderr@));
        }
        SnipsterError::CommandError(message)
    }

    /// Builds the snippet record for one template: name, content, note, and
    /// the placeholder list extracted from the content.  Storing the record
    /// is the caller's business.
    pub fn add_snip(name: &str, content: &str, note: &str) -> (r: Result<Snippet, SnipsterError>)
        ensures
            r matches Ok(s) && s.name@ == name@ && s.content@ == content@ && s.note@ == note@
                && s.placeholders.deep_view() == extract_spec(content@),
    {
        match PlaceHolder::extract_placeholders(content) {
            Ok(placeholders) => Ok(
                Snippet {
                    name: String::from_str(name),
                    content: String::from_str(content),
                    note: String::from_str(note),
                    placeholders,
                },
            ),
            Err(e) => Err(SnipsterError::PlaceHolderError(e)),
        }
    }

    /// Extracts the template's placeholders and maps each, in occurrence
    /// order, to the resolution pipeline that prompts for its value — one
    /// pipeline per occurrence, duplicates included.  The first unknown
    /// placeholder aborts the pass with its raw token text; no pipeline of
    /// a later occurrence is produced.
    pub fn edit_command_with_input(content: &str) -> (r: Result<Vec<String>, SnipsterError>)
        ensures
            (forall|k: int|
                0 <= k < extract_spec(content@).len() ==> !((#[trigger] extract_spec(content@)[k])
                    is Unknown)) ==> (r matches Ok(cmds) && cmds.deep_view().len() == extract_spec(
                content@,
            ).len() && (forall|k: int|
                0 <= k < extract_spec(content@).len() ==> #[trigger] cmds.deep_view()[k]
                    == resolution_pipeline(extract_spec(content@)[k]))),
            (exists|k: int|
                0 <= k < extract_spec(content@).len() && (#[trigger] extract_spec(content@)[k])
                    is Unknown) ==> (r matches Err(e) && e matches SnipsterError::UnknownPlaceholder(
                raw,
            ) && raw@ == extract_spec(content@)[first_unknown(extract_spec(content@))]->Unknown_0),
    {
        let ghost ks = extract_spec(content@);
        let placeholders = match PlaceHolder::extract_placeholders(content) {
            Ok(ps) => ps,
            Err(_) => {
                return Err(
                    SnipsterError::CommandError(String::from_str("Failed to parse fzf command")),
                );
            },
        };
        let n = placeholders.len();
        let mut out: Vec<String> = Vec::new();
        let mut i: usize = 0;
        while i < n
            invariant
                ks == extract_spec(content@),
                placeholders.deep_view() == ks,
                n == placeholders@.len(),
                ks.len() == n,
                0 <= i <= n,
                out@.len() == i,
                forall|k: int| 0 <= k < i ==> !((#[trigger] ks[k]) is Unknown),
                forall|k: int| 0 <= k < i ==> #[trigger] out.deep_view()[k]
                    == resolution_pipeline(ks[k]),
            decreases n - i,
        {
            let ph = &placeholders[i];
            proof {
                assert(ph@ == ks[i as int]);
            }
            match ph.handle() {
                Ok(cmd) => {
                    let ghost old_deep = out.deep_view();
                    out.push(cmd);
                    proof {
                        assert(out.deep_view() =~= old_deep.push(cmd@));
                    }
                },
                Err(e) => {
                    proof {
                        lemma_first_unknown_at(ks, i as int);
                    }
                    return Err(e);
                },
            }
            i = i + 1;
        }
        Ok(out)
    }
}

} // verus!
