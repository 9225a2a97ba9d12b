//! Workspace discovery: which `Cargo.toml` declares the workspace.
use vstd::prelude::*;

use crate::text::{chars_of, lines, split_lines, starts_with, starts_with_exec, trim_start, trim_start_vec, views};

verus! {

/// A line of a manifest opens the `[workspace]` table: after leading
/// whitespace it starts with `[workspace]` (a comment may follow) and is
/// not itself a comment.
pub open spec fn workspace_header(line: Seq<char>) -> bool {
    let t = trim_start(line);
    !starts_with(t, "#"@) && starts_with(t, "[workspace]"@)
}

/// Whether a manifest body has a top-level `[workspace]` table; lines
/// commented out with `#` do not count.
pub fn has_workspace_table(toml_body: &str) -> (r: bool)
    ensures
        r == exists|i: int| 0 <= i < lines(toml_body@).len() && #[trigger] workspace_header(lines(toml_body@)[i]),
{
    let v = chars_of(toml_body);
    let ls = split_lines(&v);
    let hash = chars_of("#");
    let ws = chars_of("[workspace]");
    let mut i: usize = 0;
    while i < ls.len()
        invariant
            i <= ls.len(),
            views(ls@) == lines(toml_body@),
            hash@ == "#"@,
            ws@ == "[workspace]"@,
            forall|k: int| 0 <= k < i ==> !#[trigger] workspace_header(lines(toml_body@)[k]),
        decreases ls.len() - i,
    {
        let t = trim_start_vec(&ls[i]);
        assert(ls@[i as int]@ == lines(toml_body@)[i as int]);
        if !starts_with_exec(&t, &hash) && starts_with_exec(&t, &ws) {
            assert(workspace_header(lines(toml_body@)[i as int]));
            return true;
        }
        i = i + 1;
    }
    false
}

/// Whether a manifest body has a top-level `[workspace]` table.
pub open spec fn declares_workspace(body: Seq<char>) -> bool {
    exists|i: int| 0 <= i < lines(body).len() && #[trigger] workspace_header(lines(body)[i])
}

/// Whether manifest `i` (`None`: there is none) declares the workspace.
pub open spec fn is_root_manifest(bodies: Seq<Option<String>>, i: int) -> bool {
    bodies[i] matches Some(b) && declares_workspace(b@)
}

/// The workspace root among a directory and its ancestors, nearest first:
/// given the `Cargo.toml` of each (`None` where there is none), the
/// position of the first that declares a `[workspace]` table.
pub fn workspace_root_among(bodies: &Vec<Option<String>>) -> (r: Option<usize>)
    ensures
        match r {
            Some(i) => i < bodies@.len() && is_root_manifest(bodies@, i as int) && forall|k: int|
                0 <= k < i ==> !#[trigger] is_root_manifest(bodies@, k),
            None => forall|k: int| 0 <= k < bodies@.len() ==> !#[trigger] is_root_manifest(bodies@, k),
        },
{
    let mut i: usize = 0;
    while i < bodies.len()
        invariant
            i <= bodies@.len(),
            forall|k: int| 0 <= k < i ==> !#[trigger] is_root_manifest(bodies@, k),
        decreases bodies.len() - i,
    {
        match &bodies[i] {
            Some(b) => {
                if has_workspace_table(b.as_str()) {
                    return Some(i);
                }
            },
            None => {},
        }
        i = i + 1;
    }
    None
}

} // verus!
