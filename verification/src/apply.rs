//! The in-place byte-splice patcher.
//!
//! A plan's entries for one file are spliced into the file's bytes from the
//! highest offset down, so that earlier offsets stay valid; each splice is
//! recorded (its new range, the text it replaced and the text it wrote) so
//! that `undo` can revert it.  Reading and writing the files is the
//! caller's part.
use vstd::prelude::*;

use crate::digest::{hex_sha256, hex_sha256_spec};
use crate::model::{CapExpr, Ctor, PatchEntry};
use crate::model::PatchPlan;
use crate::order::{distinct_below, lemma_stable_order, stable_order, stable_order_exec};
use crate::paths::{group_paths, grouped, join_spec, path_join, string_views, PathGroup};
use crate::text::{chars_of, dec, push_dec, push_str, string_of};
use vstd::utf8::{decode_utf8, encode_utf8, valid_utf8};

verus! {

broadcast use vstd::string::group_string_axioms;

/// One recorded splice: where the new text now stands in the patched file,
/// what it replaced and what it wrote.
pub struct ManifestEntry {
    pub file: String,
    pub byte_range: std::ops::Range<usize>,
    pub before_text: String,
    pub after_text: String,
    pub sha256_before: String,
    pub sha256_after: String,
    pub reason: String,
}

/// The mathematical value of a `ManifestEntry`.
pub struct ManifestEntryView {
    pub file: Seq<char>,
    pub start: usize,
    pub end: usize,
    pub before: Seq<char>,
    pub after: Seq<char>,
    pub sha_before: Seq<char>,
    pub sha_after: Seq<char>,
    pub reason: Seq<char>,
}

impl View for ManifestEntry {
    type V = ManifestEntryView;

    open spec fn view(&self) -> ManifestEntryView {
        ManifestEntryView {
            file: self.file@,
            start: self.byte_range.start,
            end: self.byte_range.end,
            before: self.before_text@,
            after: self.after_text@,
            sha_before: self.sha256_before@,
            sha_after: self.sha256_after@,
            reason: self.reason@,
        }
    }
}

/// The record of one `apply`: format version and the splices made.
pub struct ApplyManifest {
    pub version: u32,
    pub entries: Vec<ManifestEntry>,
}

/// The views of a list of manifest entries.
pub open spec fn entry_views(es: Seq<ManifestEntry>) -> Seq<ManifestEntryView> {
    Seq::new(es.len(), |i: int| es[i]@)
}

/// Why a plan could not be applied.
#[derive(Debug, Clone, Copy, PartialEq, Eq, Structural)]
pub enum ApplyError {
    /// The plan entry at `index` has a capacity that is not a literal; the
    /// planner never produces one.
    DynamicEntry { index: usize },
    /// A span ends past the end of the (partly patched) file.
    OutOfBounds { start: usize, end: usize, len: usize },
    /// The bytes of a span are not UTF-8.
    NonUtf8 { start: usize, end: usize },
}

// ───────────────────────────── replacement text ─────────────────────────────

/// The type name a constructor is written with.
pub open spec fn type_name_spec(c: Ctor) -> Seq<char> {
    match c {
        Ctor::Vec => "Vec"@,
        Ctor::VecDeque => "VecDeque"@,
        Ctor::HashMap => "HashMap"@,
        Ctor::HashSet => "HashSet"@,
        Ctor::BTreeMap => "BTreeMap"@,
        Ctor::BTreeSet => "BTreeSet"@,
    }
}

/// The type name a constructor is written with.
pub fn ctor_type_name(c: &Ctor) -> (s: &'static str)
    ensures
        s@ == type_name_spec(*c),
{
    match c {
        Ctor::Vec => "Vec",
        Ctor::VecDeque => "VecDeque",
        Ctor::HashMap => "HashMap",
        Ctor::HashSet => "HashSet",
        Ctor::BTreeMap => "BTreeMap",
        Ctor::BTreeSet => "BTreeSet",
    }
}

/// What is written in place of the span: the new number alone for a
/// literal capacity, `{Type}::with_capacity({to})` for a bare constructor.
pub open spec fn replacement_spec(from: CapExpr, ctor: Ctor, to: usize) -> Seq<char> {
    match from {
        CapExpr::Zero => type_name_spec(ctor) + "::with_capacity("@ + dec(to as nat) + ")"@,
        _ => dec(to as nat),
    }
}

/// The text to substitute for one patch entry, derived from its `ctor`,
/// `from` and `to`.
pub fn replacement_for(e: &PatchEntry) -> (s: String)
    requires
        !(e.from is Dynamic),
    ensures
        s@ == replacement_spec(e.from, e.ctor, e.to),
{
    let mut out: Vec<char> = Vec::new();
    match &e.from {
        CapExpr::Zero => {
            push_str(&mut out, ctor_type_name(&e.ctor));
            push_str(&mut out, "::with_capacity(");
            push_dec(&mut out, e.to as u64);
            push_str(&mut out, ")");
        },
        _ => {
            push_dec(&mut out, e.to as u64);
        },
    }
    assert(out@ =~= replacement_spec(e.from, e.ctor, e.to));
    string_of(&out)
}

/// `file:line:col` of an entry.
pub open spec fn render_loc_spec(e: PatchEntry) -> Seq<char> {
    e.key.file@ + ":"@ + dec(e.key.line as nat) + ":"@ + dec(e.key.col as nat)
}

/// `file:line:col` of an entry, for messages.
pub fn render_loc(e: &PatchEntry) -> (s: String)
    ensures
        s@ == render_loc_spec(*e),
{
    let mut out = chars_of(e.key.file.as_str());
    push_str(&mut out, ":");
    push_dec(&mut out, e.key.line as u64);
    push_str(&mut out, ":");
    push_dec(&mut out, e.key.col as u64);
    assert(out@ =~= render_loc_spec(*e));
    string_of(&out)
}

// ───────────────────────────── byte splicing ─────────────────────────────

/// `b` with `b[s..t]` replaced by `a`.
pub open spec fn splice(b: Seq<u8>, s: int, t: int, a: Seq<u8>) -> Seq<u8> {
    b.take(s) + a + b.skip(t)
}

/// The bytes an entry writes.
pub open spec fn repl_bytes(e: PatchEntry) -> Seq<u8> {
    encode_utf8(replacement_spec(e.from, e.ctor, e.to))
}

/// The span starts of the entries.
pub open spec fn span_starts(es: Seq<PatchEntry>) -> Seq<usize> {
    Seq::new(es.len(), |i: int| es[i].span_bytes.start)
}

/// The order in which the entries of one file are spliced: by descending
/// start, entries with equal starts in plan order.
pub open spec fn apply_order(es: Seq<PatchEntry>) -> Seq<usize> {
    stable_order(span_starts(es), true, es.len())
}

/// Splicing the entries `es[o[0]], es[o[1]], ...` one after the other into
/// `b`: the final bytes, or the error of the first step that cannot be made.
pub open spec fn run_splices(b: Seq<u8>, es: Seq<PatchEntry>, o: Seq<usize>) -> Result<
    Seq<u8>,
    ApplyError,
>
    decreases o.len(),
{
    if o.len() == 0 {
        Ok(b)
    } else {
        let e = es[o[0] as int];
        let s = e.span_bytes.start;
        let t = e.span_bytes.end;
        if t > b.len() {
            Err(ApplyError::OutOfBounds { start: s, end: t, len: b.len() as usize })
        } else if !valid_utf8(b.subrange(s as int, t as int)) {
            Err(ApplyError::NonUtf8 { start: s, end: t })
        } else {
            run_splices(splice(b, s as int, t as int, repl_bytes(e)), es, o.drop_first())
        }
    }
}

/// The bytes each of those steps replaces, in step order.
pub open spec fn run_befores(b: Seq<u8>, es: Seq<PatchEntry>, o: Seq<usize>) -> Seq<Seq<u8>>
    decreases o.len(),
{
    if o.len() == 0 {
        seq![]
    } else {
        let e = es[o[0] as int];
        let s = e.span_bytes.start as int;
        let t = e.span_bytes.end as int;
        seq![b.subrange(s, t)] + run_befores(splice(b, s, t, repl_bytes(e)), es, o.drop_first())
    }
}

/// The starts of the steps, in step order.
pub open spec fn step_starts(es: Seq<PatchEntry>, o: Seq<usize>) -> Seq<usize> {
    Seq::new(o.len(), |k: int| es[o[k] as int].span_bytes.start)
}

/// The record of step `k`.
pub open spec fn step_record(
    file: Seq<char>,
    es: Seq<PatchEntry>,
    o: Seq<usize>,
    bef: Seq<Seq<u8>>,
    k: int,
    sha_before: Seq<char>,
    sha_after: Seq<char>,
) -> ManifestEntryView {
    let e = es[o[k] as int];
    ManifestEntryView {
        file: file,
        start: e.span_bytes.start,
        end: (e.span_bytes.start + repl_bytes(e).len()) as usize,
        before: decode_utf8(bef[k]),
        after: replacement_spec(e.from, e.ctor, e.to),
        sha_before: sha_before,
        sha_after: sha_after,
        reason: e.reason@,
    }
}

/// The patched bytes of a file whose splices all succeed.
pub open spec fn patched_bytes(src: Seq<u8>, es: Seq<PatchEntry>) -> Seq<u8> {
    run_splices(src, es, apply_order(es))->Ok_0
}

/// The manifest entries of one file: the step records sorted by ascending
/// start (ties in step order), each carrying the file's fingerprints
/// before and after.
pub open spec fn manifest_for(file: Seq<char>, src: Seq<u8>, es: Seq<PatchEntry>) -> Seq<
    ManifestEntryView,
> {
    let o = apply_order(es);
    let bef = run_befores(src, es, o);
    let q = stable_order(step_starts(es, o), false, o.len());
    Seq::new(
        q.len(),
        |i: int|
            step_record(
                file,
                es,
                o,
                bef,
                q[i] as int,
                hex_sha256_spec(src),
                hex_sha256_spec(patched_bytes(src, es)),
            ),
    )
}

/// The outcome of patching one file.
pub struct SourcePatch {
    /// The patched contents.
    pub bytes: Vec<u8>,
    /// The splices made, by ascending start.
    pub entries: Vec<ManifestEntry>,
}

/// Calls `std::str::from_utf8`; the contract claims that it succeeds on
/// valid UTF-8 alone and that the text is the UTF-8 decoding of the bytes.
#[verifier::external_body]
pub(crate) fn utf8_text(b: &[u8]) -> (r: Option<String>)
    ensures
        r is Some <==> valid_utf8(b@),
        r matches Some(s) ==> s@ == decode_utf8(b@),
{
    match std::str::from_utf8(b) {
        Ok(s) => Some(s.to_string()),
        Err(_) => None,
    }
}

/// `b[s..t]` as a vector.
pub fn slice_bytes(b: &Vec<u8>, s: usize, t: usize) -> (r: Vec<u8>)
    requires
        s <= t <= b.len(),
    ensures
        r@ == b@.subrange(s as int, t as int),
{
    let mut r: Vec<u8> = Vec::new();
    let mut i = s;
    while i < t
        invariant
            s <= i <= t <= b.len(),
            r@ == b@.subrange(s as int, i as int),
        decreases t - i,
    {
        r.push(b[i]);
        i = i + 1;
        assert(r@ =~= b@.subrange(s as int, i as int));
    }
    r
}

/// `b` with `b[s..t]` replaced by `a`.
pub fn splice_bytes(b: &Vec<u8>, s: usize, t: usize, a: &[u8]) -> (r: Vec<u8>)
    requires
        s <= t <= b.len(),
    ensures
        r@ == splice(b@, s as int, t as int, a@),
{
    let mut r: Vec<u8> = Vec::new();
    let mut i: usize = 0;
    while i < s
        invariant
            i <= s <= t <= b.len(),
            r@ == b@.take(i as int),
        decreases s - i,
    {
        r.push(b[i]);
        i = i + 1;
        assert(r@ =~= b@.take(i as int));
    }
    let mut j: usize = 0;
    while j < a.len()
        invariant
            j <= a.len(),
            s <= t <= b.len(),
            r@ == b@.take(s as int) + a@.take(j as int),
        decreases a.len() - j,
    {
        r.push(a[j]);
        j = j + 1;
        assert(r@ =~= b@.take(s as int) + a@.take(j as int));
    }
    assert(a@.take(a.len() as int) =~= a@);
    let mut k = t;
    while k < b.len()
        invariant
            t <= k <= b.len(),
            r@ == b@.take(s as int) + a@ + b@.subrange(t as int, k as int),
        decreases b.len() - k,
    {
        r.push(b[k]);
        k = k + 1;
        assert(r@ =~= b@.take(s as int) + a@ + b@.subrange(t as int, k as int));
    }
    assert(b@.subrange(t as int, b.len() as int) =~= b@.skip(t as int));
    r
}

/// A copy of `b`.
pub fn copy_bytes(b: &[u8]) -> (r: Vec<u8>)
    ensures
        r@ == b@,
{
    let mut r: Vec<u8> = Vec::new();
    let mut i: usize = 0;
    while i < b.len()
        invariant
            i <= b.len(),
            r@ == b@.take(i as int),
        decreases b.len() - i,
    {
        r.push(b[i]);
        i = i + 1;
        assert(r@ =~= b@.take(i as int));
    }
    assert(b@.take(b.len() as int) =~= b@);
    r
}

/// Patch the contents `src` of `file` with the plan entries `es` of that
/// file: splice them tail first, then record every splice, by ascending
/// start, with the file's fingerprints before and after.  Fails with the
/// first splice that ends past the end of the file or covers bytes that are
/// not UTF-8.
pub fn apply_to_source(file: &str, src: &Vec<u8>, es: &Vec<PatchEntry>) -> (r: Result<
    SourcePatch,
    ApplyError,
>)
    requires
        forall|i: int|
            0 <= i < es.len() ==> !(#[trigger] es[i].from is Dynamic) && es[i].span_bytes.start
                <= es[i].span_bytes.end,
    ensures
        match r {
            Ok(p) => run_splices(src@, es@, apply_order(es@)) == Ok::<Seq<u8>, ApplyError>(
                p.bytes@,
            ) && entry_views(p.entries@) == manifest_for(file@, src@, es@),
            Err(e) => run_splices(src@, es@, apply_order(es@)) == Err::<Seq<u8>, ApplyError>(e),
        },
{
    let n = es.len();
    let mut keys: Vec<usize> = Vec::new();
    let mut i: usize = 0;
    while i < n
        invariant
            i <= n == es.len(),
            keys@ == span_starts(es@).take(i as int),
        decreases n - i,
    {
        keys.push(es[i].span_bytes.start);
        i = i + 1;
        assert(keys@ =~= span_starts(es@).take(i as int));
    }
    assert(keys@ =~= span_starts(es@));
    let o = stable_order_exec(&keys, true);
    proof {
        lemma_stable_order(keys@, true, n as nat);
    }
    let mut buf = copy_bytes(src.as_slice());
    let mut rec_start: Vec<usize> = Vec::new();
    let mut rec_end: Vec<usize> = Vec::new();
    let mut rec_before: Vec<String> = Vec::new();
    let mut rec_after: Vec<String> = Vec::new();
    let ghost mut bef: Seq<Seq<u8>> = seq![];
    let mut k: usize = 0;
    assert(o@.skip(0) =~= o@);
    while k < n
        invariant
            n == es.len(),
            k <= n,
            o@ == apply_order(es@),
            o@.len() == n,
            distinct_below(o@, n as nat),
            forall|j: int|
                0 <= j < es.len() ==> !(#[trigger] es[j].from is Dynamic) && es[j].span_bytes.start
                    <= es[j].span_bytes.end,
            run_splices(src@, es@, o@) == run_splices(buf@, es@, o@.skip(k as int)),
            run_befores(src@, es@, o@) == bef + run_befores(buf@, es@, o@.skip(k as int)),
            bef.len() == k,
            rec_start@.len() == k,
            rec_end@.len() == k,
            rec_before@.len() == k,
            rec_after@.len() == k,
            forall|j: int|
                0 <= j < k ==> {
                    let e = #[trigger] es[o@[j] as int];
                    &&& rec_start@[j] == e.span_bytes.start
                    &&& rec_end@[j] == e.span_bytes.start + repl_bytes(e).len()
                    &&& rec_before@[j]@ == decode_utf8(bef[j])
                    &&& rec_after@[j]@ == replacement_spec(e.from, e.ctor, e.to)
                },
        decreases n - k,
    {
        let idx = o[k];
        let e = &es[idx];
        let s = e.span_bytes.start;
        let t = e.span_bytes.end;
        let ghost rest = o@.skip(k as int);
        assert(rest[0] == o@[k as int]);
        assert(rest.drop_first() =~= o@.skip(k + 1));
        if t > buf.len() {
            return Err(ApplyError::OutOfBounds { start: s, end: t, len: buf.len() });
        }
        let before_bytes = slice_bytes(&buf, s, t);
        let before = match utf8_text(before_bytes.as_slice()) {
            Some(x) => x,
            None => {
                return Err(ApplyError::NonUtf8 { start: s, end: t });
            },
        };
        let after = replacement_for(e);
        let ab = after.as_str().as_bytes();
        let ghost old_buf = buf@;
        buf = splice_bytes(&buf, s, t, ab);
        assert(buf@.len() == old_buf.len() - (t - s) + ab@.len());
        assert(s + ab@.len() <= buf.len());
        rec_start.push(s);
        rec_end.push(s + ab.len());
        rec_before.push(before);
        rec_after.push(after);
        proof {
            assert(bef + seq![old_buf.subrange(s as int, t as int)] + run_befores(
                buf@,
                es@,
                o@.skip(k + 1),
            ) =~= bef + run_befores(old_buf, es@, rest));
            bef = bef.push(old_buf.subrange(s as int, t as int));
        }
        k = k + 1;
    }
    assert(o@.skip(n as int).len() == 0);
    assert(bef =~= run_befores(src@, es@, o@));
    let sha_before = hex_sha256(src.as_slice());
    let sha_after = hex_sha256(buf.as_slice());
    assert(rec_start@ =~= step_starts(es@, o@));
    let q = stable_order_exec(&rec_start, false);
    proof {
        lemma_stable_order(rec_start@, false, n as nat);
    }
    let fname = chars_of(file);
    let mut entries: Vec<ManifestEntry> = Vec::new();
    let mut m: usize = 0;
    while m < n
        invariant
            m <= n == es.len(),
            q@.len() == n,
            distinct_below(q@, n as nat),
            q@ == stable_order(step_starts(es@, o@), false, n as nat),
            o@ == apply_order(es@),
            o@.len() == n,
            distinct_below(o@, n as nat),
            bef == run_befores(src@, es@, o@),
            fname@ == file@,
            sha_before@ == hex_sha256_spec(src@),
            sha_after@ == hex_sha256_spec(buf@),
            run_splices(src@, es@, o@) == Ok::<Seq<u8>, ApplyError>(buf@),
            rec_start@.len() == n,
            rec_end@.len() == n,
            rec_before@.len() == n,
            rec_after@.len() == n,
            forall|j: int|
                0 <= j < n ==> {
                    let e = #[trigger] es[o@[j] as int];
                    &&& rec_start@[j] == e.span_bytes.start
                    &&& rec_end@[j] == e.span_bytes.start + repl_bytes(e).len()
                    &&& rec_before@[j]@ == decode_utf8(bef[j])
                    &&& rec_after@[j]@ == replacement_spec(e.from, e.ctor, e.to)
                },
            entries@.len() == m,
            forall|i: int|
                0 <= i < m ==> #[trigger] entries@[i]@ == step_record(
                    file@,
                    es@,
                    o@,
                    bef,
                    q@[i] as int,
                    hex_sha256_spec(src@),
                    hex_sha256_spec(buf@),
                ),
        decreases n - m,
    {
        let j = q[m];
        let ghost e = es@[o@[j as int] as int];
        assert(rec_start@[j as int] == e.span_bytes.start);
        let entry = ManifestEntry {
            file: string_of(&fname),
            byte_range: std::ops::Range { start: rec_start[j], end: rec_end[j] },
            before_text: rec_before[j].clone(),
            after_text: rec_after[j].clone(),
            sha256_before: sha_before.clone(),
            sha256_after: sha_after.clone(),
            reason: es[o[j]].reason.clone(),
        };
        entries.push(entry);
        m = m + 1;
    }
    assert(entry_views(entries@) =~= manifest_for(file@, src@, es@));
    Ok(SourcePatch { bytes: buf, entries })
}

// ───────────────────────────── the whole plan ─────────────────────────────

/// The path at which a plan entry's file is patched: a relative path is
/// taken from the workspace root.
pub open spec fn entry_path(root: Seq<char>, e: PatchEntry) -> Seq<char> {
    join_spec(root, e.key.file@)
}

/// The paths of all plan entries.
pub open spec fn entry_paths(root: Seq<char>, es: Seq<PatchEntry>) -> Seq<Seq<char>> {
    Seq::new(es.len(), |i: int| entry_path(root, es[i]))
}

/// Check a plan and group its entries by the file they patch, files in path
/// order and each file's entries in plan order.  The first entry whose
/// capacity is not a literal is an error: the planner never produces one.
pub fn group_plan(plan: &PatchPlan, workspace_root: &str) -> (r: Result<Vec<PathGroup>, ApplyError>)
    ensures
        match r {
            Ok(gs) => (forall|i: int|
                0 <= i < plan.entries.len() ==> !(#[trigger] plan.entries@[i].from is Dynamic))
                && grouped(gs@, entry_paths(workspace_root@, plan.entries@)),
            Err(e) => exists|k: int|
                0 <= k < plan.entries.len() && e == (ApplyError::DynamicEntry { index: k as usize })
                    && #[trigger] plan.entries@[k].from is Dynamic && forall|j: int|
                    0 <= j < k ==> !(#[trigger] plan.entries@[j].from is Dynamic),
        },
{
    let n = plan.entries.len();
    let mut abs: Vec<String> = Vec::new();
    let mut i: usize = 0;
    while i < n
        invariant
            i <= n == plan.entries.len(),
            forall|j: int| 0 <= j < i ==> !(#[trigger] plan.entries@[j].from is Dynamic),
            string_views(abs@) == entry_paths(workspace_root@, plan.entries@).take(i as int),
        decreases n - i,
    {
        let e = &plan.entries[i];
        if let CapExpr::Dynamic(_) = &e.from {
            assert(plan.entries@[i as int].from is Dynamic);
            return Err(ApplyError::DynamicEntry { index: i });
        }
        let pth = path_join(workspace_root, e.key.file.as_str());
        assert(pth@ == entry_path(workspace_root@, plan.entries@[i as int]));
        let ghost old = abs@;
        abs.push(pth);
        assert(string_views(abs@) =~= string_views(old).push(pth@));
        i = i + 1;
        assert(string_views(abs@) =~= entry_paths(workspace_root@, plan.entries@).take(i as int));
    }
    assert(string_views(abs@) =~= entry_paths(workspace_root@, plan.entries@));
    Ok(group_paths(&abs))
}

/// What an apply run writes of a patched file: its new bytes, or nothing
/// on a dry run.  The manifest a run returns is computed from the same
/// patches whether or not it is a dry run.
pub fn file_write(dry_run: bool, patched: Vec<u8>) -> (r: Option<Vec<u8>>)
    ensures
        dry_run ==> r is None,
        !dry_run ==> (r matches Some(b) && b@ == patched@),
{
    if dry_run {
        None
    } else {
        Some(patched)
    }
}

/// Whether an apply run records its manifest: never on a dry run, and not
/// for a plan that patched nothing.
pub fn records_manifest(dry_run: bool, n_entries: usize) -> (r: bool)
    ensures
        r == (!dry_run && n_entries > 0),
{
    !dry_run && n_entries > 0
}

} // verus!
