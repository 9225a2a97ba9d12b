//! Rolling back the most recent `apply` from its manifest.
//!
//! Undo refuses a file whose fingerprint differs from the one `apply`
//! recorded after patching: the file was edited since, and splicing could
//! corrupt the edit.  The ranges in the manifest are those of the splice
//! pass, which went tail first; undo shifts each by the length changes of
//! the splices below it, then reverts tail first, checking that every range
//! still holds the text `apply` wrote.
use vstd::prelude::*;

use crate::apply::{
    copy_bytes, entry_views, slice_bytes, splice, splice_bytes, ApplyManifest, ManifestEntry,
    ManifestEntryView,
};
use crate::digest::{hex_sha256, hex_sha256_spec};
use crate::order::{distinct_below, lemma_stable_order, stable_order, stable_order_exec};
use crate::paths::{group_paths, grouped, string_views, PathGroup};
use vstd::utf8::{encode_utf8, valid_utf8};

verus! {

broadcast use vstd::string::group_string_axioms;

/// Why a manifest could not be undone.
#[derive(Debug, Clone, Copy, PartialEq, Eq, Structural)]
pub enum UndoError {
    /// The manifest's format version is not 1.
    UnsupportedVersion { version: u32 },
    /// The file's fingerprint is not the one recorded after `apply`.
    Modified,
    /// A shifted range falls outside the offsets a file can have.
    OffsetOutOfRange,
    /// A shifted range ends past the end of the file.
    OutOfBounds { start: usize, end: usize, len: usize },
    /// The bytes of a shifted range are not UTF-8.
    NonUtf8,
    /// A shifted range does not hold the text `apply` wrote.
    Mismatch { start: usize, end: usize },
    /// After reverting, the fingerprint is not the one recorded before
    /// `apply`.
    RestoreMismatch,
}

/// Only manifests of format version 1 are understood.
pub fn check_version(m: &ApplyManifest) -> (r: Result<(), UndoError>)
    ensures
        r is Ok <==> m.version == 1,
        r matches Err(e) ==> e == (UndoError::UnsupportedVersion { version: m.version }),
{
    if m.version != 1 {
        Err(UndoError::UnsupportedVersion { version: m.version })
    } else {
        Ok(())
    }
}

/// The byte length of the text an entry wrote.
pub open spec fn after_len(e: ManifestEntryView) -> int {
    encode_utf8(e.after).len() as int
}

/// The byte length of the text an entry replaced.
pub open spec fn before_len(e: ManifestEntryView) -> int {
    encode_utf8(e.before).len() as int
}

/// The recorded starts.
pub open spec fn view_starts(es: Seq<ManifestEntryView>) -> Seq<usize> {
    Seq::new(es.len(), |i: int| es[i].start)
}

/// The entries by ascending recorded start, ties in manifest order.
pub open spec fn sorted_entries(es: Seq<ManifestEntryView>) -> Seq<ManifestEntryView> {
    let q = stable_order(view_starts(es), false, es.len());
    Seq::new(es.len(), |i: int| es[q[i] as int])
}

/// The total length change of the splices before position `i` of the
/// sorted entries.
pub open spec fn shift_before(ss: Seq<ManifestEntryView>, i: int) -> int
    decreases i,
{
    if i <= 0 {
        0
    } else {
        shift_before(ss, i - 1) + after_len(ss[i - 1]) - before_len(ss[i - 1])
    }
}

/// Where the text of sorted entry `i` stands in the patched file.
pub open spec fn shifted_start(ss: Seq<ManifestEntryView>, i: int) -> int {
    ss[i].start + shift_before(ss, i)
}

/// Every shifted range lies within the offsets of a file.
pub open spec fn shifts_in_range(ss: Seq<ManifestEntryView>) -> bool {
    forall|i: int|
        0 <= i < ss.len() ==> 0 <= #[trigger] shifted_start(ss, i) && shifted_start(ss, i)
            + after_len(ss[i]) <= usize::MAX
}

/// The shifted starts, as offsets.
pub open spec fn shifted_keys(ss: Seq<ManifestEntryView>) -> Seq<usize> {
    Seq::new(ss.len(), |i: int| shifted_start(ss, i) as usize)
}

/// Reverting the sorted entries `ss[d[0]], ss[d[1]], ...` one after the
/// other in `b`: the restored bytes, or the error of the first revert that
/// cannot be made.
pub open spec fn run_reverts(
    b: Seq<u8>,
    ss: Seq<ManifestEntryView>,
    keys: Seq<usize>,
    d: Seq<usize>,
) -> Result<Seq<u8>, UndoError>
    decreases d.len(),
{
    if d.len() == 0 {
        Ok(b)
    } else {
        let i = d[0] as int;
        let a = keys[i] as int;
        let end = a + after_len(ss[i]);
        if end > b.len() {
            Err(UndoError::OutOfBounds { start: a as usize, end: end as usize, len: b.len() as usize })
        } else if !valid_utf8(b.subrange(a, end)) {
            Err(UndoError::NonUtf8)
        } else if b.subrange(a, end) != encode_utf8(ss[i].after) {
            Err(UndoError::Mismatch { start: a as usize, end: end as usize })
        } else {
            run_reverts(splice(b, a, end, encode_utf8(ss[i].before)), ss, keys, d.drop_first())
        }
    }
}

/// What undoing the manifest entries `es` of one file does to its current
/// contents `cur`.
pub open spec fn undo_spec(es: Seq<ManifestEntryView>, cur: Seq<u8>) -> Result<Seq<u8>, UndoError> {
    if es.len() == 0 || hex_sha256_spec(cur) != es[0].sha_after {
        Err(UndoError::Modified)
    } else {
        let ss = sorted_entries(es);
        if !shifts_in_range(ss) {
            Err(UndoError::OffsetOutOfRange)
        } else {
            let keys = shifted_keys(ss);
            let d = stable_order(keys, true, ss.len());
            match run_reverts(cur, ss, keys, d) {
                Err(e) => Err(e),
                Ok(b) => if hex_sha256_spec(b) != ss[0].sha_before {
                    Err(UndoError::RestoreMismatch)
                } else {
                    Ok(b)
                },
            }
        }
    }
}

fn bytes_eq(a: &Vec<u8>, b: &[u8]) -> (r: bool)
    ensures
        r == (a@ == b@),
{
    if a.len() != b.len() {
        return false;
    }
    let mut i: usize = 0;
    while i < a.len()
        invariant
            i <= a.len() == b.len(),
            forall|k: int| 0 <= k < i ==> a@[k] == b@[k],
        decreases a.len() - i,
    {
        if a[i] != b[i] {
            return false;
        }
        i = i + 1;
    }
    assert(a@ =~= b@);
    true
}

/// Undo the manifest entries `es` of one file whose current contents are
/// `current`; on success, the restored contents.
pub fn undo_source(es: &Vec<ManifestEntry>, current: &Vec<u8>) -> (r: Result<Vec<u8>, UndoError>)
    ensures
        match r {
            Ok(b) => undo_spec(entry_views(es@), current@) == Ok::<Seq<u8>, UndoError>(b@),
            Err(e) => undo_spec(entry_views(es@), current@) == Err::<Seq<u8>, UndoError>(e),
        },
{
    let ghost vs = entry_views(es@);
    let n = es.len();
    let cur_sha = hex_sha256(current.as_slice());
    if n == 0 || cur_sha != es[0].sha256_after {
        return Err(UndoError::Modified);
    }
    let mut starts: Vec<usize> = Vec::new();
    let mut i: usize = 0;
    while i < n
        invariant
            i <= n == es.len(),
            vs == entry_views(es@),
            starts@ == view_starts(vs).take(i as int),
        decreases n - i,
    {
        starts.push(es[i].byte_range.start);
        i = i + 1;
        assert(starts@ =~= view_starts(vs).take(i as int));
    }
    assert(starts@ =~= view_starts(vs));
    let asc = stable_order_exec(&starts, false);
    proof {
        lemma_stable_order(starts@, false, n as nat);
    }
    let ghost ss = sorted_entries(vs);
    assert forall|k: int| 0 <= k < n implies #[trigger] ss[k] == es@[asc@[k] as int]@ by {}
    // Shifted starts.
    let mut keys: Vec<usize> = Vec::new();
    let mut grow: u128 = 0;
    let mut shrink: u128 = 0;
    let mut j: usize = 0;
    while j < n
        invariant
            j <= n == es.len(),
            n > 0,
            hex_sha256_spec(current@) == vs[0].sha_after,
            vs == entry_views(es@),
            ss == sorted_entries(vs),
            asc@ == stable_order(view_starts(vs), false, n as nat),
            distinct_below(asc@, n as nat),
            asc@.len() == n,
            forall|k: int| 0 <= k < n ==> #[trigger] ss[k] == es@[asc@[k] as int]@,
            grow <= j * 0xffff_ffff_ffff_ffffu128,
            shrink <= j * 0xffff_ffff_ffff_ffffu128,
            grow - shrink == shift_before(ss, j as int),
            keys@.len() == j,
            forall|k: int|
                0 <= k < j ==> 0 <= #[trigger] shifted_start(ss, k) && shifted_start(ss, k)
                    + after_len(ss[k]) <= usize::MAX && keys@[k] == shifted_start(ss, k),
        decreases n - j,
    {
        let e = &es[asc[j]];
        assert(e@ == ss[j as int]);
        let s = e.byte_range.start as u128;
        let al = e.after_text.as_str().as_bytes().len();
        let bl = e.before_text.as_str().as_bytes().len();
        assert(al == after_len(ss[j as int]));
        assert(bl == before_len(ss[j as int]));
        if s + grow < shrink {
            assert(!shifts_in_range(ss)) by {
                assert(shifted_start(ss, j as int) < 0);
            }
            return Err(UndoError::OffsetOutOfRange);
        }
        let a = s + grow - shrink;
        if a + (al as u128) > (usize::MAX as u128) {
            assert(!shifts_in_range(ss)) by {
                assert(shifted_start(ss, j as int) + after_len(ss[j as int]) > usize::MAX);
            }
            return Err(UndoError::OffsetOutOfRange);
        }
        keys.push(a as usize);
        grow = grow + al as u128;
        shrink = shrink + bl as u128;
        j = j + 1;
    }
    assert(shifts_in_range(ss));
    assert(keys@ =~= shifted_keys(ss));
    let d = stable_order_exec(&keys, true);
    proof {
        lemma_stable_order(keys@, true, n as nat);
    }
    let mut buf = copy_bytes(current.as_slice());
    let mut k: usize = 0;
    assert(d@.skip(0) =~= d@);
    while k < n
        invariant
            k <= n == es.len(),
            vs == entry_views(es@),
            ss == sorted_entries(vs),
            asc@.len() == n,
            distinct_below(asc@, n as nat),
            forall|m: int| 0 <= m < n ==> #[trigger] ss[m] == es@[asc@[m] as int]@,
            keys@ == shifted_keys(ss),
            shifts_in_range(ss),
            n > 0,
            hex_sha256_spec(current@) == vs[0].sha_after,
            d@ == stable_order(keys@, true, n as nat),
            d@.len() == n,
            distinct_below(d@, n as nat),
            run_reverts(current@, ss, keys@, d@) == run_reverts(buf@, ss, keys@, d@.skip(k as int)),
        decreases n - k,
    {
        let i = d[k];
        let ghost rest = d@.skip(k as int);
        assert(rest[0] == d@[k as int]);
        assert(rest.drop_first() =~= d@.skip(k + 1));
        let e = &es[asc[i]];
        assert(e@ == ss[i as int]);
        let a = keys[i];
        let after = e.after_text.as_str().as_bytes();
        let before = e.before_text.as_str().as_bytes();
        assert(0 <= shifted_start(ss, i as int));
        let end = a + after.len();
        if end > buf.len() {
            return Err(UndoError::OutOfBounds { start: a, end, len: buf.len() });
        }
        let bytes = slice_bytes(&buf, a, end);
        if crate::apply::utf8_text(bytes.as_slice()).is_none() {
            return Err(UndoError::NonUtf8);
        }
        if !bytes_eq(&bytes, after) {
            return Err(UndoError::Mismatch { start: a, end });
        }
        buf = splice_bytes(&buf, a, end, before);
        k = k + 1;
    }
    assert(d@.skip(n as int).len() == 0);
    let restored = hex_sha256(buf.as_slice());
    if restored != es[asc[0]].sha256_before {
        return Err(UndoError::RestoreMismatch);
    }
    Ok(buf)
}

/// The files of a manifest's entries.
pub open spec fn manifest_files(es: Seq<ManifestEntry>) -> Seq<Seq<char>> {
    Seq::new(es.len(), |i: int| es[i].file@)
}

/// The manifest's entries grouped by file, files in path order and each
/// file's entries in manifest order.
pub fn group_manifest(m: &ApplyManifest) -> (gs: Vec<PathGroup>)
    ensures
        grouped(gs@, manifest_files(m.entries@)),
{
    let mut files: Vec<String> = Vec::new();
    let mut i: usize = 0;
    while i < m.entries.len()
        invariant
            i <= m.entries.len(),
            string_views(files@) == manifest_files(m.entries@).take(i as int),
        decreases m.entries.len() - i,
    {
        let ghost old = files@;
        files.push(m.entries[i].file.clone());
        assert(string_views(files@) =~= string_views(old).push(m.entries@[i as int].file@));
        i = i + 1;
        assert(string_views(files@) =~= manifest_files(m.entries@).take(i as int));
    }
    assert(string_views(files@) =~= manifest_files(m.entries@));
    group_paths(&files)
}

/// A copy of an entry.
pub fn copy_entry(e: &ManifestEntry) -> (r: ManifestEntry)
    ensures
        r@ == e@,
{
    ManifestEntry {
        file: e.file.clone(),
        byte_range: std::ops::Range { start: e.byte_range.start, end: e.byte_range.end },
        before_text: e.before_text.clone(),
        after_text: e.after_text.clone(),
        sha256_before: e.sha256_before.clone(),
        sha256_after: e.sha256_after.clone(),
        reason: e.reason.clone(),
    }
}

/// The entries at the given positions, in that order.
pub fn select_entries(es: &Vec<ManifestEntry>, at: &Vec<usize>) -> (r: Vec<ManifestEntry>)
    requires
        forall|k: int| 0 <= k < at.len() ==> #[trigger] at@[k] < es.len(),
    ensures
        entry_views(r@) == Seq::new(at.len() as nat, |k: int| es@[at@[k] as int]@),
{
    let mut r: Vec<ManifestEntry> = Vec::new();
    let mut k: usize = 0;
    while k < at.len()
        invariant
            k <= at.len(),
            forall|j: int| 0 <= j < at.len() ==> #[trigger] at@[j] < es.len(),
            entry_views(r@) == Seq::new(k as nat, |j: int| es@[at@[j] as int]@),
        decreases at.len() - k,
    {
        let ghost old = r@;
        let c = copy_entry(&es[at[k]]);
        r.push(c);
        assert(r@ == old.push(c));
        assert(entry_views(r@) =~= entry_views(old).push(c@));
        k = k + 1;
        assert(entry_views(r@) =~= Seq::new(k as nat, |j: int| es@[at@[j] as int]@));
    }
    r
}

} // verus!
