//! Note files: rendering the machine-owned region of an issue note and the
//! sentinel-based merge that keeps the user-owned tail intact across syncs.

use vstd::prelude::*;
use crate::issue::JiraIssue;
use crate::markup::spec_translate;
use crate::markup::translate;
use crate::richtext::extract_description;
use crate::richtext::spec_extract_description;
use crate::text::find_first;
use crate::text::first_match;
use crate::text::lemma_first_match_from;
use crate::text::lemma_first_match_is;
use crate::text::match_at;

verus! {

/// The fixed sentinel line that separates the machine-owned region of a
/// note from the user-owned tail. Changing it orphans the tails of files
/// written under the old sentinel.
pub fn user_notes_sentinel() -> (r: &'static str)
    ensures
        r@ == "%% USER_NOTES_START %%"@,
        r@.len() > 0,
{
    proof {
        reveal_strlit("%% USER_NOTES_START %%");
    }
    "%% USER_NOTES_START %%"
}

/// The seed for the user-owned region of a freshly created note.
pub fn default_user_notes() -> (r: &'static str)
    ensures
        r@ == "\n- [ ] "@,
{
    "\n- [ ] "
}

/// The user-owned region the merge keeps: everything strictly after the
/// first occurrence of the sentinel in the prior file, or the default when
/// there is no prior file or the prior file lacks the sentinel.
pub open spec fn spec_preserved(
    prior: Option<Seq<char>>,
    default_notes: Seq<char>,
    sentinel: Seq<char>,
) -> Seq<char> {
    match prior {
        Some(p) => match first_match(p, sentinel) {
            Some(i) => p.subrange(i + sentinel.len(), p.len() as int),
            None => default_notes,
        },
        None => default_notes,
    }
}

/// The merged note: the fresh machine region, the sentinel, then the
/// preserved user region.
pub open spec fn spec_merge(
    prior: Option<Seq<char>>,
    machine: Seq<char>,
    default_notes: Seq<char>,
    sentinel: Seq<char>,
) -> Seq<char> {
    machine + sentinel + spec_preserved(prior, default_notes, sentinel)
}

/// Merges freshly generated machine content with the user-owned tail of
/// the prior file contents, if any.
pub fn merge_note(
    prior: Option<&String>,
    machine: &str,
    default_notes: &str,
    sentinel: &str,
) -> (r: String)
    ensures
        r@ == spec_merge(
            match prior {
                Some(p) => Some(p@),
                None => None,
            },
            machine@,
            default_notes@,
            sentinel@,
        ),
{
    let mut out = String::from_str(machine);
    out.append(sentinel);
    match prior {
        Some(p) => {
            match find_first(p.as_str(), sentinel) {
                Some(i) => {
                    proof {
                        lemma_first_match_from(p@, sentinel@, 0);
                    }
                    let p_len = p.as_str().unicode_len();
                    let tail = p.as_str().substring_char(i + sentinel.unicode_len(), p_len);
                    out.append(tail);
                },
                None => out.append(default_notes),
            }
        },
        None => out.append(default_notes),
    }
    proof {
        assert(out@ =~= spec_merge(
            match prior {
                Some(p) => Some(p@),
                None => None,
            },
            machine@,
            default_notes@,
            sentinel@,
        ));
    }
    out
}

/// No occurrence of the sentinel begins inside the machine region of
/// `machine + sentinel`: the sentinel's first occurrence in any merged
/// file is then the region boundary itself.
pub open spec fn sentinel_clean(machine: Seq<char>, sentinel: Seq<char>) -> bool {
    forall|i: int| 0 <= i < machine.len() ==> !match_at(machine + sentinel, sentinel, i)
}

/// Preservation: merging fresh machine content `m2` over a well-formed
/// prior file `m1 + sentinel + u` keeps the user tail `u` byte for byte,
/// whatever edits produced it.
pub proof fn lemma_merge_preserves(
    m1: Seq<char>,
    m2: Seq<char>,
    default_notes: Seq<char>,
    sentinel: Seq<char>,
    u: Seq<char>,
)
    requires
        sentinel.len() > 0,
        sentinel_clean(m1, sentinel),
    ensures
        spec_merge(Some(m1 + sentinel + u), m2, default_notes, sentinel) == m2 + sentinel + u,
{
    let f = m1 + sentinel + u;
    let b = m1.len() as int;
    assert(match_at(f, sentinel, b)) by {
        assert(f.subrange(b, b + sentinel.len() as int) =~= sentinel);
    }
    assert forall|i: int| 0 <= i < b implies !match_at(f, sentinel, i) by {
        if match_at(f, sentinel, i) {
            assert((m1 + sentinel).subrange(i, i + sentinel.len() as int) =~= f.subrange(
                i,
                i + sentinel.len() as int,
            ));
            assert(match_at(m1 + sentinel, sentinel, i));
        }
    }
    lemma_first_match_is(f, sentinel, b);
    assert(f.subrange(b + sentinel.len() as int, f.len() as int) =~= u);
}

/// Idempotence: re-merging a file the merge itself produced, with the same
/// machine content, reproduces it byte for byte.
pub proof fn lemma_merge_idempotent(
    prior: Option<Seq<char>>,
    machine: Seq<char>,
    default_notes: Seq<char>,
    sentinel: Seq<char>,
)
    requires
        sentinel.len() > 0,
        sentinel_clean(machine, sentinel),
    ensures
        spec_merge(
            Some(spec_merge(prior, machine, default_notes, sentinel)),
            machine,
            default_notes,
            sentinel,
        ) == spec_merge(prior, machine, default_notes, sentinel),
{
    let u = spec_preserved(prior, default_notes, sentinel);
    lemma_merge_preserves(machine, machine, default_notes, sentinel, u);
}

/// The priority name rendered in a note, with `None` standing in for an
/// absent priority.
pub open spec fn spec_priority_name(priority: Option<String>) -> Seq<char> {
    match priority {
        Some(p) => p@,
        None => "None"@,
    }
}

/// The tracker page of an issue.
pub open spec fn spec_browse_url(host: Seq<char>, key: Seq<char>) -> Seq<char> {
    "https://"@ + host + "/browse/"@ + key
}

/// The frontmatter of a note.
pub open spec fn spec_frontmatter(issue: JiraIssue, host: Seq<char>) -> Seq<char> {
    "---\njira_key: "@ + issue.key@ + "\njira_status: \""@ + issue.status@ + "\"\njira_url: "@
        + spec_browse_url(host, issue.key@) + "\ncreated_at: "@ + issue.created@ + "\n---\n"@
}

/// The rendered issue summary that follows the frontmatter.
pub open spec fn spec_issue_body(issue: JiraIssue) -> Seq<char> {
    "# "@ + issue.key@ + " "@ + issue.summary@ + "\n\n**Type**: "@ + issue.issue_type@
        + "\n**Priority**: "@ + spec_priority_name(issue.priority) + "\n**Status**: "@
        + issue.status@ + "\n\n## Description\n"@ + spec_translate(
        spec_extract_description(issue.description),
    ) + "\n\n"@
}

/// The whole machine-owned region of a note.
pub open spec fn spec_machine_region(issue: JiraIssue, host: Seq<char>) -> Seq<char> {
    spec_frontmatter(issue, host) + spec_issue_body(issue)
}

/// Renders the machine-owned region of the note for `issue`.
pub fn issue_machine_region(issue: &JiraIssue, host: &str) -> (r: String)
    ensures
        r@ == spec_machine_region(*issue, host@),
{
    let mut out = String::from_str("---\njira_key: ");
    out.append(issue.key.as_str());
    out.append("\njira_status: \"");
    out.append(issue.status.as_str());
    out.append("\"\njira_url: ");
    out.append("https://");
    out.append(host);
    out.append("/browse/");
    out.append(issue.key.as_str());
    out.append("\ncreated_at: ");
    out.append(issue.created.as_str());
    out.append("\n---\n");
    out.append("# ");
    out.append(issue.key.as_str());
    out.append(" ");
    out.append(issue.summary.as_str());
    out.append("\n\n**Type**: ");
    out.append(issue.issue_type.as_str());
    out.append("\n**Priority**: ");
    match &issue.priority {
        Some(p) => out.append(p.as_str()),
        None => out.append("None"),
    }
    out.append("\n**Status**: ");
    out.append(issue.status.as_str());
    out.append("\n\n## Description\n");
    let plain = extract_description(
        match &issue.description {
            Some(adf) => Some(adf),
            None => None,
        },
    );
    let markdown = translate(plain.as_str());
    out.append(markdown.as_str());
    out.append("\n\n");
    proof {
        assert(out@ =~= spec_machine_region(*issue, host@));
    }
    out
}

/// The full note contents for one sync of `issue`: the fresh machine
/// region merged with whatever user tail `prior` carries.
pub fn update_issue_content(issue: &JiraIssue, host: &str, prior: Option<&String>) -> (r: String)
    ensures
        r@ == spec_merge(
            match prior {
                Some(p) => Some(p@),
                None => None,
            },
            spec_machine_region(*issue, host@),
            "\n- [ ] "@,
            "%% USER_NOTES_START %%"@,
        ),
{
    let machine = issue_machine_region(issue, host);
    merge_note(prior, machine.as_str(), default_user_notes(), user_notes_sentinel())
}

/// The file name of an issue's note.
pub fn note_file_name(key: &str) -> (r: String)
    ensures
        r@ == key@ + ".md"@,
{
    let mut out = String::from_str(key);
    out.append(".md");
    out
}

/// The directory, under the vault root, that holds the issue notes.
pub fn tickets_dir_name() -> (r: &'static str)
    ensures
        r@ == "Jira Tickets"@,
{
    "Jira Tickets"
}

/// The board file's name under the vault root.
pub fn board_file_name() -> (r: &'static str)
    ensures
        r@ == "My Jira Board.md"@,
{
    "My Jira Board.md"
}

} // verus!
