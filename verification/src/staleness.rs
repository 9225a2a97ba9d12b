//! The staleness guard between `instrument` and `apply`.
//!
//! Right after `instrument`, the hash of every `.rs` file of the workspace
//! is recorded.  `apply` patches sources at the `(file, line, column)`
//! sites of a profile, which is only safe while the sources are still the
//! ones the profile was taken from; so before it runs, every recorded file
//! is hashed again, and any file that changed or disappeared stops it,
//! unless it is forced.  Without a recorded snapshot there is nothing to
//! check.
use vstd::prelude::*;
use crate::digest::{hex_sha256, hex_sha256_spec};
use crate::lint_apply::bytes_of;
use crate::text::{push_all, push_str, str_eq, string_of};

verus! {

/// The only snapshot version this code reads and writes.
pub const STALENESS_VERSION: u32 = 1;

/// One file's hash as recorded after `instrument`.
#[derive(Debug, Clone, PartialEq, Eq)]
pub struct StalenessFileEntry {
    pub path: String,
    /// SHA-256 (lowercase hex) of the file's content.
    pub sha256: String,
}

/// The snapshot written by `instrument` and read by `apply`.
#[derive(Debug, Clone, PartialEq, Eq)]
pub struct StalenessManifest {
    pub version: u32,
    /// Unix seconds at which the snapshot was taken.
    pub timestamp: u64,
    pub files: Vec<StalenessFileEntry>,
}

/// What reading a recorded file gave.
pub enum FileState {
    /// The file's current content.
    Present(String),
    /// The file no longer exists.
    Missing,
}

/// The snapshot of files `paths` with contents `contents`, taken at
/// `timestamp`.
pub fn staleness_snapshot(paths: &Vec<String>, contents: &Vec<String>, timestamp: u64) -> (r: StalenessManifest)
    requires
        paths@.len() == contents@.len(),
    ensures
        r.version == STALENESS_VERSION,
        r.timestamp == timestamp,
        r.files@.len() == paths@.len(),
        forall|i: int|
            0 <= i < paths@.len() ==> (#[trigger] r.files@[i]).path@ == paths@[i]@ && r.files@[i].sha256@
                == hex_sha256_spec(bytes_of(contents@[i]@)),
{
    let mut files: Vec<StalenessFileEntry> = Vec::new();
    let mut i: usize = 0;
    while i < paths.len()
        invariant
            i <= paths@.len() == contents@.len(),
            files@.len() == i,
            forall|t: int|
                0 <= t < i ==> (#[trigger] files@[t]).path@ == paths@[t]@ && files@[t].sha256@
                    == hex_sha256_spec(bytes_of(contents@[t]@)),
        decreases paths.len() - i,
    {
        let sha = hex_sha256(contents[i].as_str().as_bytes());
        files.push(StalenessFileEntry { path: paths[i].clone(), sha256: sha });
        i = i + 1;
    }
    StalenessManifest { version: STALENESS_VERSION, timestamp, files }
}

/// The report line of recorded file `i`, if it is stale: its path with
/// ` (modified)` when its hash changed, ` (deleted)` when it is gone.
pub open spec fn stale_line(files: Seq<StalenessFileEntry>, current: Seq<FileState>, i: int) -> Option<Seq<char>> {
    match current[i] {
        FileState::Present(c) => if hex_sha256_spec(bytes_of(c@)) != files[i].sha256@ {
            Some(files[i].path@ + " (modified)"@)
        } else {
            None
        },
        FileState::Missing => Some(files[i].path@ + " (deleted)"@),
    }
}

/// The report lines of the stale files among the first `n`, in order.
pub open spec fn stale_upto(files: Seq<StalenessFileEntry>, current: Seq<FileState>, n: int) -> Seq<Seq<char>>
    decreases n,
{
    if n <= 0 {
        Seq::empty()
    } else {
        let prev = stale_upto(files, current, n - 1);
        match stale_line(files, current, n - 1) {
            Some(l) => prev.push(l),
            None => prev,
        }
    }
}

/// The views of a list of strings.
pub open spec fn line_views(v: Seq<String>) -> Seq<Seq<char>> {
    Seq::new(v.len(), |i: int| v[i]@)
}

/// The report lines of the stale files of `m`, with `current[i]` what
/// reading file `i` gave.
pub fn stale_files(m: &StalenessManifest, current: &Vec<FileState>) -> (r: Vec<String>)
    requires
        current@.len() == m.files@.len(),
    ensures
        line_views(r@) == stale_upto(m.files@, current@, m.files@.len() as int),
{
    let mut out: Vec<String> = Vec::new();
    let mut i: usize = 0;
    while i < m.files.len()
        invariant
            i <= m.files@.len() == current@.len(),
            line_views(out@) == stale_upto(m.files@, current@, i as int),
        decreases m.files.len() - i,
    {
        let e = &m.files[i];
        let ghost old = out@;
        match &current[i] {
            FileState::Present(c) => {
                let sha = hex_sha256(c.as_str().as_bytes());
                if !str_eq(sha.as_str(), e.sha256.as_str()) {
                    let mut line: Vec<char> = crate::text::chars_of(e.path.as_str());
                    push_str(&mut line, " (modified)");
                    let s = string_of(&line);
                    out.push(s);
                    assert(line_views(out@) =~= line_views(old).push(s@));
                }
            },
            FileState::Missing => {
                let mut line: Vec<char> = crate::text::chars_of(e.path.as_str());
                push_str(&mut line, " (deleted)");
                let s = string_of(&line);
                out.push(s);
                assert(line_views(out@) =~= line_views(old).push(s@));
            },
        }
        i = i + 1;
    }
    out
}

/// Why `apply` is refused.
pub enum StalenessError {
    /// The snapshot has a version other than 1.
    UnsupportedVersion { version: u32 },
    /// These files changed or disappeared since the snapshot (report lines).
    Stale { files: Vec<String> },
}

/// Decide whether `apply` may go on.  Forced, or without a snapshot, it
/// may.  Otherwise the snapshot must have version 1 and no recorded file
/// may have changed or disappeared; `current[i]` is what reading file `i`
/// gave.
pub fn check_staleness(m: Option<&StalenessManifest>, current: &Vec<FileState>, force: bool) -> (r: Result<(), StalenessError>)
    requires
        m matches Some(mm) ==> current@.len() == mm.files@.len(),
    ensures
        force || m is None ==> r is Ok,
        !force && m.is_some() ==> {
            let mm = m.unwrap();
            &&& mm.version != STALENESS_VERSION ==> (r matches Err(StalenessError::UnsupportedVersion { version }) && version == mm.version)
            &&& mm.version == STALENESS_VERSION ==> {
                let lines = stale_upto(mm.files@, current@, mm.files@.len() as int);
                &&& lines.len() == 0 ==> r is Ok
                &&& lines.len() > 0 ==> (r matches Err(StalenessError::Stale { files }) && line_views(files@) == lines)
            }
        },
{
    if force {
        return Ok(());
    }
    match m {
        None => Ok(()),
        Some(mm) => {
            if mm.version != STALENESS_VERSION {
                return Err(StalenessError::UnsupportedVersion { version: mm.version });
            }
            let stale = stale_files(mm, current);
            if stale.len() == 0 {
                Ok(())
            } else {
                Err(StalenessError::Stale { files: stale })
            }
        },
    }
}

/// Lines joined by `sep`.
pub open spec fn joined(lines: Seq<Seq<char>>, sep: Seq<char>) -> Seq<char>
    decreases lines.len(),
{
    if lines.len() == 0 {
        Seq::empty()
    } else if lines.len() == 1 {
        lines[0]
    } else {
        joined(lines.drop_last(), sep) + sep + lines.last()
    }
}

/// The refusal message for stale files: what went wrong, the stale files
/// one per indented line, and the hint to refresh the snapshot or force.
pub open spec fn stale_message_text(lines: Seq<Seq<char>>) -> Seq<char> {
    "source files changed since `instrument` ran; the profile's (file, line, column) sites may no longer point at the intended code:\n  "@
        + joined(lines, "\n  "@)
        + "\nhint: re-run `instrument` (or `measure`) to refresh the snapshot, or pass --force to override this check."@
}

/// The refusal message for the report lines `stale`.
pub fn stale_message(stale: &Vec<String>) -> (r: String)
    ensures
        r@ == stale_message_text(line_views(stale@)),
{
    let mut out: Vec<char> = Vec::new();
    push_str(
        &mut out,
        "source files changed since `instrument` ran; the profile's (file, line, column) sites may no longer point at the intended code:\n  ",
    );
    let ghost head = out@;
    let mut i: usize = 0;
    while i < stale.len()
        invariant
            i <= stale@.len(),
            out@ == head + joined(line_views(stale@).take(i as int), "\n  "@),
        decreases stale.len() - i,
    {
        let ghost prev = line_views(stale@).take(i as int);
        if i > 0 {
            push_str(&mut out, "\n  ");
        }
        let line = crate::text::chars_of(stale[i].as_str());
        push_all(&mut out, &line);
        proof {
            let next = line_views(stale@).take(i + 1);
            assert(next.drop_last() =~= prev);
            assert(next.last() == stale@[i as int]@);
            if i == 0 {
                assert(next.len() == 1);
                assert(joined(next, "\n  "@) == next[0]);
                assert(joined(prev, "\n  "@) =~= Seq::<char>::empty());
            }
        }
        i = i + 1;
        assert(out@ =~= head + joined(line_views(stale@).take(i as int), "\n  "@));
    }
    assert(line_views(stale@).take(stale@.len() as int) =~= line_views(stale@));
    push_str(
        &mut out,
        "\nhint: re-run `instrument` (or `measure`) to refresh the snapshot, or pass --force to override this check.",
    );
    string_of(&out)
}

/// A snapshot passes its own check: checked against the very contents it
/// was taken from, a fresh snapshot finds no stale file.
pub proof fn lemma_fresh_snapshot_passes(m: StalenessManifest, contents: Seq<String>, current: Seq<FileState>)
    requires
        m.files@.len() == contents.len() == current.len(),
        forall|i: int|
            0 <= i < contents.len() ==> (#[trigger] m.files@[i]).sha256@ == hex_sha256_spec(
                bytes_of(contents[i]@),
            ),
        forall|i: int| 0 <= i < contents.len() ==> #[trigger] current[i] == FileState::Present(contents[i]),
    ensures
        stale_upto(m.files@, current, m.files@.len() as int).len() == 0,
{
    lemma_no_stale_upto(m, contents, current, m.files@.len() as int);
}

proof fn lemma_no_stale_upto(m: StalenessManifest, contents: Seq<String>, current: Seq<FileState>, n: int)
    requires
        0 <= n <= m.files@.len() == contents.len() == current.len(),
        forall|i: int|
            0 <= i < contents.len() ==> (#[trigger] m.files@[i]).sha256@ == hex_sha256_spec(
                bytes_of(contents[i]@),
            ),
        forall|i: int| 0 <= i < contents.len() ==> #[trigger] current[i] == FileState::Present(contents[i]),
    ensures
        stale_upto(m.files@, current, n).len() == 0,
    decreases n,
{
    if n > 0 {
        lemma_no_stale_upto(m, contents, current, n - 1);
        assert(current[n - 1] == FileState::Present(contents[n - 1]));
        assert(m.files@[n - 1].sha256@ == hex_sha256_spec(bytes_of(contents[n - 1]@)));
    }
}

/// Whether recorded file `i` is stale: its current content hashes
/// differently from the recorded hash, or it is gone.
pub open spec fn is_stale(files: Seq<StalenessFileEntry>, current: Seq<FileState>, i: int) -> bool {
    match current[i] {
        FileState::Present(c) => hex_sha256_spec(bytes_of(c@)) != files[i].sha256@,
        FileState::Missing => true,
    }
}

/// Every stale file among the first `n` is reported, each with its own
/// line, and nothing else is: the lines are empty exactly when no file is
/// stale; a file whose content changed gives `<path> (modified)`, one that
/// is gone gives `<path> (deleted)`; and every line is the line of a stale
/// file.
pub proof fn lemma_every_stale_file_reported(files: Seq<StalenessFileEntry>, current: Seq<FileState>, n: int)
    requires
        0 <= n <= files.len(),
        n <= current.len(),
    ensures
        (stale_upto(files, current, n).len() == 0) <==> (forall|i: int| 0 <= i < n ==> !#[trigger] is_stale(files, current, i)),
        forall|i: int|
            0 <= i < n && #[trigger] is_stale(files, current, i) ==> stale_upto(files, current, n).contains(
                files[i].path@ + if current[i] is Missing {
                    " (deleted)"@
                } else {
                    " (modified)"@
                },
            ),
        forall|l: int|
            0 <= l < stale_upto(files, current, n).len() ==> exists|i: int|
                0 <= i < n && is_stale(files, current, i) && #[trigger] stale_upto(files, current, n)[l] == files[i].path@
                    + if current[i] is Missing {
                    " (deleted)"@
                } else {
                    " (modified)"@
                },
    decreases n,
{
    if n > 0 {
        lemma_every_stale_file_reported(files, current, n - 1);
        let prev = stale_upto(files, current, n - 1);
        let cur = stale_upto(files, current, n);
        let last = files[n - 1].path@ + if current[n - 1] is Missing {
            " (deleted)"@
        } else {
            " (modified)"@
        };
        if is_stale(files, current, n - 1) {
            assert(cur == prev.push(last));
            assert(cur[cur.len() - 1] == last);
            assert forall|i: int| 0 <= i < n && #[trigger] is_stale(files, current, i) implies cur.contains(
                files[i].path@ + if current[i] is Missing {
                    " (deleted)"@
                } else {
                    " (modified)"@
                },
            ) by {
                if i < n - 1 {
                    let x = files[i].path@ + if current[i] is Missing {
                        " (deleted)"@
                    } else {
                        " (modified)"@
                    };
                    let t = choose|t: int| 0 <= t < prev.len() && prev[t] == x;
                    assert(cur[t] == x);
                }
            }
            assert forall|l: int| 0 <= l < cur.len() implies exists|i: int|
                0 <= i < n && is_stale(files, current, i) && #[trigger] cur[l] == files[i].path@ + if current[i] is Missing {
                    " (deleted)"@
                } else {
                    " (modified)"@
                } by {
                if l < prev.len() {
                    assert(cur[l] == prev[l]);
                } else {
                    assert(cur[l] == last);
                }
            }
        } else {
            assert(cur == prev);
            assert forall|i: int| 0 <= i < n && #[trigger] is_stale(files, current, i) implies cur.contains(
                files[i].path@ + if current[i] is Missing {
                    " (deleted)"@
                } else {
                    " (modified)"@
                },
            ) by {
                assert(i != n - 1);
            }
        }
    }
}

} // verus!
