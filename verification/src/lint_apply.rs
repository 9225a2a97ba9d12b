//! `lint-apply`: rewrite sources through the capacity lint, record every
//! file it changed, and undo that from the record.
//!
//! The lint runs as `cargo dylint --path <lint> [--fix] [--allow-dirty] --
//! --manifest-path <workspace>/Cargo.toml`.  Every `.rs` file of the
//! workspace is hashed before the run; a file whose hash differs afterwards
//! is recorded with its hashes and its whole former content, which is what
//! an undo writes back after checking that the file still has the recorded
//! post-run hash.
use vstd::prelude::*;
use vstd::utf8::encode_utf8;
use crate::digest::{hex_sha256, hex_sha256_spec};
use crate::text::{dec, idec, push_dec, push_idec, push_str, string_of};

verus! {

/// The only manifest version this code reads and writes.
pub const LINT_MANIFEST_VERSION: u32 = 1;

/// One file changed by the lint run.
#[derive(Debug, Clone, PartialEq, Eq)]
pub struct LintFileEntry {
    /// Path of the source file.
    pub file: String,
    /// SHA-256 (lowercase hex) of the file before the run.
    pub sha256_before: String,
    /// The whole content of the file before the run.
    pub content_before: String,
    /// SHA-256 (lowercase hex) of the file after the run.
    pub sha256_after: String,
}

/// The record of one lint run.
#[derive(Debug, Clone, PartialEq, Eq)]
pub struct LintApplyManifest {
    pub version: u32,
    /// The profile the lint read.
    pub profile_path: String,
    /// One entry per changed file.
    pub files: Vec<LintFileEntry>,
}

/// The arguments of `lint-apply`, paths already resolved.
pub struct LintApplyArgs {
    pub profile_path: String,
    pub lint_path: String,
    pub workspace_root: String,
    pub dry_run: bool,
    pub allow_dirty: bool,
}

/// A source file as it was before the run: path, hash and content.
pub struct FileSnapshot {
    pub path: String,
    pub sha256: String,
    pub content: String,
}

/// The UTF-8 bytes of a text.
pub open spec fn bytes_of(s: Seq<char>) -> Seq<u8> {
    encode_utf8(s)
}

/// The arguments given to `cargo`: the lint path, `--fix` unless it is a
/// dry run, `--allow-dirty` when asked for, and the workspace manifest
/// after `--`.
pub open spec fn dylint_args_spec(lint: Seq<char>, dry_run: bool, allow_dirty: bool, manifest: Seq<char>) -> Seq<Seq<char>> {
    seq!["dylint"@, "--path"@, lint] + (if dry_run {
        Seq::empty()
    } else {
        seq!["--fix"@]
    }) + (if allow_dirty {
        seq!["--allow-dirty"@]
    } else {
        Seq::empty()
    }) + seq!["--"@, "--manifest-path"@, manifest]
}

/// The views of a list of strings.
pub open spec fn string_views(v: Seq<String>) -> Seq<Seq<char>> {
    Seq::new(v.len(), |i: int| v[i]@)
}

/// The arguments of the `cargo dylint` run for `args`, with `manifest` the
/// workspace's `Cargo.toml`.
pub fn dylint_args(args: &LintApplyArgs, manifest: &str) -> (r: Vec<String>)
    ensures
        string_views(r@) == dylint_args_spec(args.lint_path@, args.dry_run, args.allow_dirty, manifest@),
{
    let mut r: Vec<String> = Vec::new();
    r.push("dylint".to_string());
    r.push("--path".to_string());
    r.push(args.lint_path.clone());
    if !args.dry_run {
        r.push("--fix".to_string());
    }
    if args.allow_dirty {
        r.push("--allow-dirty".to_string());
    }
    r.push("--".to_string());
    r.push("--manifest-path".to_string());
    r.push(manifest.to_string());
    assert(string_views(r@) =~= dylint_args_spec(
        args.lint_path@,
        args.dry_run,
        args.allow_dirty,
        manifest@,
    ));
    r
}

/// The mathematical value of a `LintFileEntry`.
pub struct LintFileEntryView {
    pub file: Seq<char>,
    pub sha256_before: Seq<char>,
    pub content_before: Seq<char>,
    pub sha256_after: Seq<char>,
}

impl View for LintFileEntry {
    type V = LintFileEntryView;

    open spec fn view(&self) -> LintFileEntryView {
        LintFileEntryView {
            file: self.file@,
            sha256_before: self.sha256_before@,
            content_before: self.content_before@,
            sha256_after: self.sha256_after@,
        }
    }
}

/// The views of a list of entries.
pub open spec fn entry_views(v: Seq<LintFileEntry>) -> Seq<LintFileEntryView> {
    Seq::new(v.len(), |i: int| v[i]@)
}

/// Whether file `i` changed: it could be read again and its hash differs
/// from the one taken before the run.
pub open spec fn file_changed(before: Seq<FileSnapshot>, after: Seq<Option<String>>, i: int) -> bool {
    match after[i] {
        Some(c) => hex_sha256_spec(bytes_of(c@)) != before[i].sha256@,
        None => false,
    }
}

/// The entries recorded for the first `n` files.
pub open spec fn changed_upto(before: Seq<FileSnapshot>, after: Seq<Option<String>>, n: int) -> Seq<LintFileEntryView>
    decreases n,
{
    if n <= 0 {
        Seq::empty()
    } else {
        let prev = changed_upto(before, after, n - 1);
        if file_changed(before, after, n - 1) {
            prev.push(
                LintFileEntryView {
                    file: before[n - 1].path@,
                    sha256_before: before[n - 1].sha256@,
                    content_before: before[n - 1].content@,
                    sha256_after: hex_sha256_spec(bytes_of(after[n - 1]->Some_0@)),
                },
            )
        } else {
            prev
        }
    }
}

/// The post-run contents of the changed files among the first `n`, in
/// order.
pub open spec fn changed_contents(before: Seq<FileSnapshot>, after: Seq<Option<String>>, n: int) -> Seq<Seq<char>>
    decreases n,
{
    if n <= 0 {
        Seq::empty()
    } else {
        let prev = changed_contents(before, after, n - 1);
        if file_changed(before, after, n - 1) {
            prev.push(after[n - 1]->Some_0@)
        } else {
            prev
        }
    }
}

/// The net change in bytes over the changed files among the first `n`.
pub open spec fn delta_upto(before: Seq<FileSnapshot>, after: Seq<Option<String>>, n: int) -> int
    decreases n,
{
    if n <= 0 {
        0
    } else {
        delta_upto(before, after, n - 1) + if file_changed(before, after, n - 1) {
            bytes_of(after[n - 1]->Some_0@).len() - bytes_of(before[n - 1].content@).len()
        } else {
            0
        }
    }
}

/// Whether every running total of the byte change fits in an `i64`, and
/// every length is within `isize::MAX`, as every allocation is.
pub open spec fn delta_fits(before: Seq<FileSnapshot>, after: Seq<Option<String>>) -> bool {
    &&& forall|k: int| 0 <= k <= before.len() ==> i64::MIN <= #[trigger] delta_upto(before, after, k) <= i64::MAX
    &&& forall|i: int| 0 <= i < before.len() ==> bytes_of(#[trigger] before[i].content@).len() <= isize::MAX
    &&& forall|i: int| 0 <= i < before.len() && #[trigger] after[i] is Some ==> bytes_of(after[i]->Some_0@).len() <= isize::MAX
}

/// Compare the files after the run with their snapshots: `after[i]` is the
/// content of file `i` read again, `None` when it could not be read (such a
/// file is skipped).  Returns the entries of the changed files, in order,
/// and the net number of bytes they gained.
pub fn changed_files(before: &Vec<FileSnapshot>, after: &Vec<Option<String>>) -> (r: (Vec<LintFileEntry>, i64))
    requires
        after@.len() == before@.len(),
        delta_fits(before@, after@),
    ensures
        entry_views(r.0@) == changed_upto(before@, after@, before@.len() as int),
        r.1 == delta_upto(before@, after@, before@.len() as int),
{
    let mut out: Vec<LintFileEntry> = Vec::new();
    let mut total: i64 = 0;
    let mut i: usize = 0;
    while i < before.len()
        invariant
            i <= before@.len() == after@.len(),
            delta_fits(before@, after@),
            entry_views(out@) == changed_upto(before@, after@, i as int),
            total == delta_upto(before@, after@, i as int),
        decreases before.len() - i,
    {
        let snap = &before[i];
        match &after[i] {
            Some(c) => {
                let sha_after = hex_sha256(c.as_str().as_bytes());
                let same = crate::text::str_eq(sha_after.as_str(), snap.sha256.as_str());
                if !same {
                    assert(delta_upto(before@, after@, i + 1) == total + (bytes_of(c@).len()
                        - bytes_of(snap.content@).len()));
                    assert(i64::MIN <= delta_upto(before@, after@, i + 1) <= i64::MAX);
                    let grown = c.as_str().len() as i64;
                    let shrunk = snap.content.as_str().len() as i64;
                    total = total + (grown - shrunk);
                    let e = LintFileEntry {
                        file: snap.path.clone(),
                        sha256_before: snap.sha256.clone(),
                        content_before: snap.content.clone(),
                        sha256_after: sha_after,
                    };
                    let ghost old = out@;
                    out.push(e);
                    assert(entry_views(out@) =~= entry_views(old).push(e@));
                }
            },
            None => {},
        }
        i = i + 1;
    }
    (out, total)
}

/// The line that closes a run labelled `label`: the number of files
/// changed and the net byte change, each with its plural.
pub open spec fn summary_text(label: Seq<char>, n: nat, total: int) -> Seq<char> {
    label + ": modified "@ + dec(n) + " file"@ + (if n == 1 {
        ""@
    } else {
        "s"@
    }) + ", net "@ + idec(total) + " byte"@ + (if total == 1 || total == -1 {
        ""@
    } else {
        "s"@
    }) + " changed"@
}

/// `<label>: modified N file(s), net T byte(s) changed`.
fn run_summary(label: &str, n: usize, total: i64) -> (r: String)
    ensures
        r@ == summary_text(label@, n as nat, total as int),
{
    let mut out: Vec<char> = crate::text::chars_of(label);
    push_str(&mut out, ": modified ");
    push_dec(&mut out, n as u64);
    push_str(&mut out, " file");
    if n != 1 {
        push_str(&mut out, "s");
    } else {
        push_str(&mut out, "");
    }
    push_str(&mut out, ", net ");
    push_idec(&mut out, total);
    push_str(&mut out, " byte");
    if total == 1 || total == -1 {
        push_str(&mut out, "");
    } else {
        push_str(&mut out, "s");
    }
    push_str(&mut out, " changed");
    string_of(&out)
}

/// `lint-apply: modified N file(s), net T byte(s) changed`.
pub fn lint_apply_summary(n: usize, total: i64) -> (r: String)
    ensures
        r@ == summary_text("lint-apply"@, n as nat, total as int),
{
    run_summary("lint-apply", n, total)
}

/// `instrument: modified N file(s), net T byte(s) changed`.
pub fn instrument_summary(n: usize, total: i64) -> (r: String)
    ensures
        r@ == summary_text("instrument"@, n as nat, total as int),
{
    run_summary("instrument", n, total)
}

/// What a text is as JSON.
#[derive(Debug, Clone, Copy, PartialEq, Eq)]
pub enum JsonShape {
    /// Not JSON.
    Invalid,
    /// A JSON object.
    Object,
    /// JSON, but not an object.
    Other,
}

/// What `serde_json` reads a text as.
pub uninterp spec fn json_shape_of(text: Seq<char>) -> JsonShape;

/// The number of elements of the array under member `key` of a JSON text:
/// `None` when the text is not JSON, or the member is missing or not an
/// array.
pub uninterp spec fn json_member_len(text: Seq<char>, key: Seq<char>) -> Option<usize>;

/// `serde_json::from_str::<serde_json::Value>`: whether the text is JSON,
/// and whether the value is the `Object` variant.  Claims that the
/// answer is the one `json_shape_of` names.
#[verifier::external_body]
fn json_shape(text: &str) -> (r: JsonShape)
    ensures
        r == json_shape_of(text@),
{
    match serde_json::from_str::<serde_json::Value>(text) {
        Ok(serde_json::Value::Object(_)) => JsonShape::Object,
        Ok(_) => JsonShape::Other,
        Err(_) => JsonShape::Invalid,
    }
}

/// `serde_json::from_str::<serde_json::Value>` and `Value::get(key)`: the
/// length of the array under member `key`, `None` when the text is not
/// JSON or the member is missing or not an array.  Claims that the answer
/// is the one `json_member_len` names.
#[verifier::external_body]
fn json_array_member_len(text: &str, key: &str) -> (r: Option<usize>)
    ensures
        r == json_member_len(text@, key@),
{
    match serde_json::from_str::<serde_json::Value>(text) {
        Ok(v) => match v.get(key) {
            Some(serde_json::Value::Array(a)) => Some(a.len()),
            _ => None,
        },
        Err(_) => None,
    }
}

/// The member of a profile that lists its sites.
pub open spec fn stats_key() -> Seq<char> {
    "stats"@
}

/// The number of sites a profile text lists, as the dry run reports it:
/// the length of its `stats` array, zero when there is none.
pub fn profile_site_count(text: &str) -> (r: usize)
    ensures
        r == match json_member_len(text@, stats_key()) {
            Some(n) => n,
            None => 0,
        },
{
    let key = "stats";
    proof {
        reveal_strlit("stats");
    }
    match json_array_member_len(text, key) {
        Some(n) => n,
        None => 0,
    }
}

/// Why a lint run does not start.
#[derive(Debug, Clone, Copy, PartialEq, Eq)]
pub enum PreflightError {
    /// The profile does not exist or is not a file.
    ProfileMissing,
    /// The profile is not JSON.
    ProfileNotJson,
    /// The profile is JSON but not an object.
    ProfileNotObject,
    /// The lint path holds no `Cargo.toml`.
    LintNoManifest,
    /// The lint path's `Cargo.toml` does not name `captrack-pgo-lint`.
    LintNotLintCrate,
    /// `cargo dylint` cannot be run.
    DylintMissing,
    /// The workspace root holds no `Cargo.toml`.
    WorkspaceNoManifest,
}

/// The lint-path check: its `Cargo.toml` (`None`: there is none) must name
/// the `captrack-pgo-lint` package somewhere.
pub open spec fn lint_path_ok(lint_manifest: Option<Seq<char>>) -> Result<(), PreflightError> {
    match lint_manifest {
        None => Err(PreflightError::LintNoManifest),
        Some(body) => if crate::text::contains(body, "captrack-pgo-lint"@) {
            Ok(())
        } else {
            Err(PreflightError::LintNotLintCrate)
        },
    }
}

/// The text of an optional string.
pub open spec fn opt_view(s: Option<&str>) -> Option<Seq<char>> {
    match s {
        Some(t) => Some(t@),
        None => None,
    }
}

/// Check a lint path, given its `Cargo.toml` text (`None`: there is none).
pub fn check_lint_path(lint_manifest: Option<&str>) -> (r: Result<(), PreflightError>)
    ensures
        r == lint_path_ok(opt_view(lint_manifest)),
{
    match lint_manifest {
        None => Err(PreflightError::LintNoManifest),
        Some(body) => {
            let b = crate::text::chars_of(body);
            let pat = crate::text::chars_of("captrack-pgo-lint");
            if crate::text::contains_exec(&b, &pat) {
                Ok(())
            } else {
                Err(PreflightError::LintNotLintCrate)
            }
        },
    }
}

/// The checks before a lint run, in order: the profile (`None`: not a
/// file) must be a JSON object; the lint path must be the lint crate; `cargo
/// dylint` must run, unless this is a dry run, which never starts it; the
/// workspace must have a `Cargo.toml`.  The first failing check is
/// reported.
pub open spec fn preflight_spec(
    profile: Option<Seq<char>>,
    lint_manifest: Option<Seq<char>>,
    dylint_ok: bool,
    dry_run: bool,
    workspace_manifest: bool,
) -> Result<(), PreflightError> {
    match profile {
        None => Err(PreflightError::ProfileMissing),
        Some(p) => match json_shape_of(p) {
            JsonShape::Invalid => Err(PreflightError::ProfileNotJson),
            JsonShape::Other => Err(PreflightError::ProfileNotObject),
            JsonShape::Object => match lint_path_ok(lint_manifest) {
                Err(e) => Err(e),
                Ok(_) => if !dylint_ok && !dry_run {
                    Err(PreflightError::DylintMissing)
                } else if !workspace_manifest {
                    Err(PreflightError::WorkspaceNoManifest)
                } else {
                    Ok(())
                },
            },
        },
    }
}

/// Run the checks before `lint-apply`.
pub fn lint_apply_preflight(
    profile: Option<&str>,
    lint_manifest: Option<&str>,
    dylint_ok: bool,
    dry_run: bool,
    workspace_manifest: bool,
) -> (r: Result<(), PreflightError>)
    ensures
        r == preflight_spec(opt_view(profile), opt_view(lint_manifest), dylint_ok, dry_run, workspace_manifest),
{
    match profile {
        None => {
            return Err(PreflightError::ProfileMissing);
        },
        Some(p) => match json_shape(p) {
            JsonShape::Invalid => {
                return Err(PreflightError::ProfileNotJson);
            },
            JsonShape::Other => {
                return Err(PreflightError::ProfileNotObject);
            },
            JsonShape::Object => {},
        },
    }
    match check_lint_path(lint_manifest) {
        Err(e) => {
            return Err(e);
        },
        Ok(_) => {},
    }
    if !dylint_ok && !dry_run {
        return Err(PreflightError::DylintMissing);
    }
    if !workspace_manifest {
        return Err(PreflightError::WorkspaceNoManifest);
    }
    Ok(())
}

/// The dry-run estimate of the work: `would inspect N profile site(s)
/// (matches depend on source scan)`.
pub open spec fn inspect_text(n: nat) -> Seq<char> {
    "would inspect "@ + dec(n) + " profile site"@ + (if n == 1 {
        ""@
    } else {
        "s"@
    }) + " (matches depend on source scan)"@
}

/// The dry-run estimate line for a profile of `n` sites.
pub fn inspect_line(n: usize) -> (r: String)
    ensures
        r@ == inspect_text(n as nat),
{
    let mut out: Vec<char> = Vec::new();
    push_str(&mut out, "would inspect ");
    push_dec(&mut out, n as u64);
    push_str(&mut out, " profile site");
    if n != 1 {
        push_str(&mut out, "s");
    } else {
        push_str(&mut out, "");
    }
    push_str(&mut out, " (matches depend on source scan)");
    string_of(&out)
}

/// Why an undo is refused.
#[derive(Debug, PartialEq, Eq)]
pub enum LintUndoError {
    /// The manifest has a version other than 1.
    UnsupportedVersion { version: u32 },
    /// File `index` of the manifest no longer has its recorded post-run
    /// hash; `current` is the hash it has.
    Modified { index: usize, current: String },
}

/// Whether file `i` still has its recorded post-run hash.
pub open spec fn still_after(files: Seq<LintFileEntry>, current: Seq<String>, i: int) -> bool {
    hex_sha256_spec(bytes_of(current[i]@)) == files[i].sha256_after@
}

/// Check that a manifest may be undone, given the current contents of its
/// files in order: its version must be 1, and every file must still have
/// its recorded post-run hash; the first that does not is named.  On
/// success the number of files to restore is returned.
pub fn check_lint_undo(m: &LintApplyManifest, current: &Vec<String>) -> (r: Result<usize, LintUndoError>)
    requires
        current@.len() == m.files@.len(),
    ensures
        m.version != LINT_MANIFEST_VERSION ==> r == Err::<usize, LintUndoError>(
            LintUndoError::UnsupportedVersion { version: m.version },
        ),
        m.version == LINT_MANIFEST_VERSION ==> match r {
            Ok(n) => n == m.files@.len() && forall|i: int|
                0 <= i < m.files@.len() ==> still_after(m.files@, current@, i),
            Err(LintUndoError::Modified { index, current: sha }) => {
                &&& index < m.files@.len()
                &&& !still_after(m.files@, current@, index as int)
                &&& sha@ == hex_sha256_spec(bytes_of(current@[index as int]@))
                &&& forall|i: int| 0 <= i < index ==> still_after(m.files@, current@, i)
            },
            Err(LintUndoError::UnsupportedVersion { .. }) => false,
        },
{
    if m.version != LINT_MANIFEST_VERSION {
        return Err(LintUndoError::UnsupportedVersion { version: m.version });
    }
    let mut i: usize = 0;
    while i < m.files.len()
        invariant
            i <= m.files@.len() == current@.len(),
            m.version == LINT_MANIFEST_VERSION,
            forall|t: int| 0 <= t < i ==> still_after(m.files@, current@, t),
        decreases m.files.len() - i,
    {
        let sha = hex_sha256(current[i].as_str().as_bytes());
        let same = crate::text::str_eq(sha.as_str(), m.files[i].sha256_after.as_str());
        if !same {
            return Err(LintUndoError::Modified { index: i, current: sha });
        }
        i = i + 1;
    }
    Ok(m.files.len())
}

/// Undo accepts what a run recorded: a version-1 manifest holding the
/// entries recorded by `changed_files`, checked against the very contents
/// the run left in those files, is accepted in full.
pub proof fn lemma_undo_accepts_recorded(
    before: Seq<FileSnapshot>,
    after: Seq<Option<String>>,
    files: Seq<LintFileEntry>,
    current: Seq<String>,
)
    requires
        after.len() == before.len(),
        entry_views(files) == changed_upto(before, after, before.len() as int),
        string_views(current) == changed_contents(before, after, before.len() as int),
    ensures
        current.len() == files.len(),
        forall|i: int| 0 <= i < files.len() ==> still_after(files, current, i),
{
    lemma_recorded_parallel(before, after, before.len() as int);
    let n = before.len() as int;
    assert(files.len() == entry_views(files).len());
    assert(current.len() == string_views(current).len());
    assert forall|i: int| 0 <= i < files.len() implies still_after(files, current, i) by {
        assert(entry_views(files)[i] == files[i]@);
        assert(string_views(current)[i] == current[i]@);
        assert(changed_upto(before, after, n)[i].sha256_after == hex_sha256_spec(
            bytes_of(changed_contents(before, after, n)[i]),
        ));
    }
}

proof fn lemma_recorded_parallel(before: Seq<FileSnapshot>, after: Seq<Option<String>>, n: int)
    ensures
        changed_upto(before, after, n).len() == changed_contents(before, after, n).len(),
        forall|i: int|
            0 <= i < changed_upto(before, after, n).len() ==> #[trigger] changed_upto(
                before,
                after,
                n,
            )[i].sha256_after == hex_sha256_spec(bytes_of(changed_contents(before, after, n)[i])),
    decreases n,
{
    if n > 0 {
        lemma_recorded_parallel(before, after, n - 1);
    }
}

/// The checks before an instrument run, in order: the lint path must be
/// the lint crate; `cargo dylint` must run; the workspace must have a
/// `Cargo.toml`.
pub open spec fn instrument_preflight_spec(
    lint_manifest: Option<Seq<char>>,
    dylint_ok: bool,
    workspace_manifest: bool,
) -> Result<(), PreflightError> {
    match lint_path_ok(lint_manifest) {
        Err(e) => Err(e),
        Ok(_) => if !dylint_ok {
            Err(PreflightError::DylintMissing)
        } else if !workspace_manifest {
            Err(PreflightError::WorkspaceNoManifest)
        } else {
            Ok(())
        },
    }
}

/// Run the checks before `instrument`.
pub fn instrument_preflight(lint_manifest: Option<&str>, dylint_ok: bool, workspace_manifest: bool) -> (r: Result<(), PreflightError>)
    ensures
        r == instrument_preflight_spec(opt_view(lint_manifest), dylint_ok, workspace_manifest),
{
    match check_lint_path(lint_manifest) {
        Err(e) => {
            return Err(e);
        },
        Ok(_) => {},
    }
    if !dylint_ok {
        return Err(PreflightError::DylintMissing);
    }
    if !workspace_manifest {
        return Err(PreflightError::WorkspaceNoManifest);
    }
    Ok(())
}

} // verus!
