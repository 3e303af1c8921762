//! A preview of a change to a file, as a unified diff.

use vstd::prelude::*;

verus! {

/// The unified diff, by lines, that `similar` writes for the change from
/// `old` to `new` under the two header lines given.
pub uninterp spec fn unified_diff_text(
    old: Seq<char>,
    new: Seq<char>,
    old_header: Seq<char>,
    new_header: Seq<char>,
) -> Seq<char>;

/// Calls `similar::TextDiff::from_lines` on the two texts, then
/// `unified_diff`, `header` with the two names, and `to_string`. The diff is
/// made with the crate's defaults, which set no deadline, so the text depends
/// on the four arguments alone.
#[verifier::external_body]
fn diff_lines(old: &str, new: &str, old_header: &str, new_header: &str) -> (diff: String)
    ensures
        diff@ == unified_diff_text(old@, new@, old_header@, new_header@),
{
    similar::TextDiff::from_lines(old, new).unified_diff().header(old_header, new_header).to_string()
}

/// The header line for the old side of a diff of `path`.
pub open spec fn old_header(path: Seq<char>) -> Seq<char> {
    path + "\toriginal"@
}

/// The header line for the new side of a diff of `path`.
pub open spec fn new_header(path: Seq<char>, new_description: Seq<char>) -> Seq<char> {
    path + "\t"@ + new_description
}

/// The unified diff of a change to the file at `path`. The old side is
/// headed by the path, a tab and `original`; the new side by the path, a tab
/// and `new_description`.
pub fn unified_diff(old: &str, new: &str, path: &str, new_description: &str) -> (diff: String)
    ensures
        diff@ == unified_diff_text(
            old@,
            new@,
            old_header(path@),
            new_header(path@, new_description@),
        ),
{
    let mut from = path.to_owned();
    from.append("\toriginal");
    let mut to = path.to_owned();
    to.append("\t");
    to.append(new_description);
    diff_lines(old, new, from.as_str(), to.as_str())
}

} // verus!
