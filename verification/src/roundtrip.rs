//! `undo` inverts `apply`: reverting the manifest that patching a file
//! recorded gives back the file byte for byte.
//!
//! The proof views a file with disjoint spans `q[0] < q[1] < ...` as
//! alternating gaps and pieces, each piece either original or patched; a
//! splice of `apply` patches one more piece from the top down, a revert of
//! `undo` restores one from the top down.
use vstd::prelude::*;

use crate::apply::{
    apply_order, entry_views, manifest_for, patched_bytes, repl_bytes, replacement_spec,
    run_befores, run_splices, span_starts, splice, step_record, step_starts, ManifestEntryView,
};
use crate::digest::hex_sha256_spec;
use crate::model::PatchEntry;
use crate::order::{
    distinct_below, in_order, lemma_stable_order, lemma_stable_order_identity,
    lemma_stable_order_reverse, sorted_by, stable_order, strictly_in_order,
};
use crate::text::dec;
use crate::undo::{
    after_len, before_len, run_reverts, shift_before, shifted_keys, shifted_start, shifts_in_range,
    sorted_entries, undo_spec, view_starts, UndoError,
};
use crate::apply::ApplyError;
use vstd::utf8::{
    decode_utf8, decode_utf8_encode_utf8, encode_scalar, encode_utf8, encode_utf8_valid_utf8,
    valid_utf8,
};

verus! {

/// A splice: the span `[.0, .1)` of the original and the bytes `.2` it
/// receives.
pub type Span = (int, int, Seq<u8>);

/// Where the gap before span `i` begins: the end of span `i - 1`.
pub open spec fn gap_start(q: Seq<Span>, i: int) -> int {
    if i <= 0 {
        0
    } else {
        q[i - 1].1
    }
}

/// Spans in order, not overlapping, within `src`.
pub open spec fn spaced(src: Seq<u8>, q: Seq<Span>) -> bool {
    &&& forall|i: int| 0 <= i < q.len() ==> 0 <= #[trigger] q[i].0 <= q[i].1 <= src.len()
    &&& forall|i: int| 0 <= i < q.len() - 1 ==> #[trigger] q[i].1 <= q[i + 1].0
}

/// Span `j` is patched in the window `[lo, hi)`.
pub open spec fn in_window(lo: int, hi: int, j: int) -> bool {
    lo <= j < hi
}

/// The gap of original bytes before span `i`.
pub open spec fn gap(src: Seq<u8>, q: Seq<Span>, i: int) -> Seq<u8> {
    src.subrange(gap_start(q, i), q[i].0)
}

/// Span `i`, patched when `lo <= i < hi`, original otherwise.
pub open spec fn piece(src: Seq<u8>, q: Seq<Span>, i: int, lo: int, hi: int) -> Seq<u8> {
    if in_window(lo, hi, i) {
        q[i].2
    } else {
        src.subrange(q[i].0, q[i].1)
    }
}

/// Everything before the gap of span `i`.
#[verifier::opaque]
pub open spec fn pfx(src: Seq<u8>, q: Seq<Span>, i: int, lo: int, hi: int) -> Seq<u8>
    decreases i,
{
    if i <= 0 {
        seq![]
    } else {
        pfx(src, q, i - 1, lo, hi) + gap(src, q, i - 1) + piece(src, q, i - 1, lo, hi)
    }
}

/// Everything from the gap of span `i` on.
#[verifier::opaque]
pub open spec fn sfx(src: Seq<u8>, q: Seq<Span>, i: int, lo: int, hi: int) -> Seq<u8>
    decreases q.len() - i,
{
    if i >= q.len() {
        src.skip(gap_start(q, q.len() as int))
    } else {
        gap(src, q, i) + piece(src, q, i, lo, hi) + sfx(src, q, i + 1, lo, hi)
    }
}

/// The length change of the patched spans before span `i`.
#[verifier::opaque]
pub open spec fn shift(q: Seq<Span>, i: int, lo: int, hi: int) -> int
    decreases i,
{
    if i <= 0 {
        0
    } else {
        shift(q, i - 1, lo, hi) + if in_window(lo, hi, i - 1) {
            q[i - 1].2.len() - (q[i - 1].1 - q[i - 1].0)
        } else {
            0
        }
    }
}

pub proof fn lemma_split(src: Seq<u8>, q: Seq<Span>, i: int, lo: int, hi: int)
    requires
        0 <= i <= q.len(),
    ensures
        pfx(src, q, i, lo, hi) + sfx(src, q, i, lo, hi) == sfx(src, q, 0, lo, hi),
    decreases i,
{
    reveal(pfx);
    reveal(sfx);
    reveal(shift);
    if i > 0 {
        lemma_split(src, q, i - 1, lo, hi);
        assert(pfx(src, q, i, lo, hi) + sfx(src, q, i, lo, hi) =~= pfx(src, q, i - 1, lo, hi) + sfx(
            src,
            q,
            i - 1,
            lo,
            hi,
        ));
    }
}

pub proof fn lemma_pfx_len(src: Seq<u8>, q: Seq<Span>, i: int, lo: int, hi: int)
    requires
        spaced(src, q),
        0 <= i <= q.len(),
    ensures
        pfx(src, q, i, lo, hi).len() == gap_start(q, i) + shift(q, i, lo, hi),
    decreases i,
{
    reveal(pfx);
    reveal(sfx);
    reveal(shift);
    if i > 0 {
        lemma_pfx_len(src, q, i - 1, lo, hi);
        assert(q[i - 1].0 <= q[i - 1].1);
        if i - 1 > 0 {
            assert(q[i - 2].1 <= q[i - 1].0);
        }
    }
}

pub proof fn lemma_shift_none(q: Seq<Span>, i: int, lo: int, hi: int)
    requires
        i <= lo,
    ensures
        shift(q, i, lo, hi) == 0,
    decreases i,
{
    reveal(pfx);
    reveal(sfx);
    reveal(shift);
    if i > 0 {
        lemma_shift_none(q, i - 1, lo, hi);
    }
}

pub proof fn lemma_pfx_dep(src: Seq<u8>, q: Seq<Span>, i: int, lo: int, hi: int, lo2: int, hi2: int)
    requires
        forall|j: int| 0 <= j < i ==> #[trigger] in_window(lo, hi, j) == in_window(lo2, hi2, j),
    ensures
        pfx(src, q, i, lo, hi) == pfx(src, q, i, lo2, hi2),
        shift(q, i, lo, hi) == shift(q, i, lo2, hi2),
    decreases i,
{
    reveal(pfx);
    reveal(sfx);
    reveal(shift);
    if i > 0 {
        lemma_pfx_dep(src, q, i - 1, lo, hi, lo2, hi2);
        assert(in_window(lo, hi, i - 1) == in_window(lo2, hi2, i - 1));
    }
}

pub proof fn lemma_sfx_dep(src: Seq<u8>, q: Seq<Span>, i: int, lo: int, hi: int, lo2: int, hi2: int)
    requires
        0 <= i,
        forall|j: int| i <= j < q.len() ==> #[trigger] in_window(lo, hi, j) == in_window(lo2, hi2, j),
    ensures
        sfx(src, q, i, lo, hi) == sfx(src, q, i, lo2, hi2),
    decreases q.len() - i,
{
    reveal(pfx);
    reveal(sfx);
    reveal(shift);
    if i < q.len() {
        lemma_sfx_dep(src, q, i + 1, lo, hi, lo2, hi2);
        assert(in_window(lo, hi, i) == in_window(lo2, hi2, i));
    }
}

/// With nothing patched, the suffix from span `i` is the original from its
/// gap on.
pub proof fn lemma_sfx_original(src: Seq<u8>, q: Seq<Span>, i: int, lo: int, hi: int)
    requires
        spaced(src, q),
        0 <= i <= q.len(),
        hi <= lo,
    ensures
        sfx(src, q, i, lo, hi) == src.skip(gap_start(q, i)),
    decreases q.len() - i,
{
    reveal(pfx);
    reveal(sfx);
    reveal(shift);
    if i < q.len() {
        lemma_sfx_original(src, q, i + 1, lo, hi);
        assert(q[i].0 <= q[i].1 <= src.len());
        assert(!in_window(lo, hi, i));
        assert(gap_start(q, i + 1) == q[i].1);
        if i > 0 {
            assert(0 <= q[i - 1].0 <= q[i - 1].1);
            assert(q[i - 1].1 <= q[i].0);
        }
        let c = gap_start(q, i);
        assert(0 <= c <= q[i].0);
        assert(piece(src, q, i, lo, hi) == src.subrange(q[i].0, q[i].1));
        assert(sfx(src, q, i + 1, lo, hi) == src.skip(q[i].1));
        assert(sfx(src, q, i, lo, hi) == gap(src, q, i) + piece(src, q, i, lo, hi) + sfx(
            src,
            q,
            i + 1,
            lo,
            hi,
        ));
        assert(src.subrange(c, q[i].0) + src.subrange(q[i].0, q[i].1) + src.skip(q[i].1)
            =~= src.skip(c));
    }
}

/// The buffer with spans `[lo, hi)` patched, seen around span `i`.
pub proof fn lemma_around(src: Seq<u8>, q: Seq<Span>, i: int, lo: int, hi: int)
    requires
        spaced(src, q),
        0 <= i < q.len(),
    ensures
        sfx(src, q, 0, lo, hi) == pfx(src, q, i, lo, hi) + gap(src, q, i) + piece(src, q, i, lo, hi)
            + sfx(src, q, i + 1, lo, hi),
        (pfx(src, q, i, lo, hi) + gap(src, q, i)).len() == q[i].0 + shift(q, i, lo, hi),
{
    reveal(pfx);
    reveal(sfx);
    reveal(shift);
    lemma_split(src, q, i, lo, hi);
    lemma_pfx_len(src, q, i, lo, hi);
    assert(sfx(src, q, i, lo, hi) == gap(src, q, i) + piece(src, q, i, lo, hi) + sfx(
        src,
        q,
        i + 1,
        lo,
        hi,
    ));
    assert(gap_start(q, i) <= q[i].0) by {
        if i > 0 {
            assert(q[i - 1].1 <= q[i].0);
        }
    }
    assert(sfx(src, q, 0, lo, hi) =~= pfx(src, q, i, lo, hi) + gap(src, q, i) + piece(
        src,
        q,
        i,
        lo,
        hi,
    ) + sfx(src, q, i + 1, lo, hi));
}

/// Replacing piece `i` of the buffer patched on `[lo, hi)` by its other
/// form moves the boundary `lo` (for `i == lo - 1`) or `hi` (for
/// `i == hi - 1`).
pub proof fn lemma_toggle(
    src: Seq<u8>,
    q: Seq<Span>,
    i: int,
    lo: int,
    hi: int,
    lo2: int,
    hi2: int,
)
    requires
        spaced(src, q),
        0 <= i < q.len(),
        forall|j: int|
            0 <= j < q.len() && j != i ==> #[trigger] in_window(lo, hi, j) == in_window(lo2, hi2, j),
    ensures
        pfx(src, q, i, lo, hi) + gap(src, q, i) + piece(src, q, i, lo2, hi2) + sfx(
            src,
            q,
            i + 1,
            lo,
            hi,
        ) == sfx(src, q, 0, lo2, hi2),
        shift(q, i, lo, hi) == shift(q, i, lo2, hi2),
{
    reveal(pfx);
    reveal(sfx);
    reveal(shift);
    lemma_pfx_dep(src, q, i, lo, hi, lo2, hi2);
    lemma_sfx_dep(src, q, i + 1, lo, hi, lo2, hi2);
    lemma_around(src, q, i, lo2, hi2);
}

/// Patching span `i = n - 1 - k` of the buffer with the spans above it
/// patched.
proof fn lemma_patch_one(src: Seq<u8>, q: Seq<Span>, k: int)
    requires
        spaced(src, q),
        0 <= k < q.len(),
    ensures
        ({
            let n = q.len() as int;
            let i = n - 1 - k;
            let b = sfx(src, q, 0, n - k, n);
            &&& q[i].1 <= b.len()
            &&& b.subrange(q[i].0, q[i].1) == src.subrange(q[i].0, q[i].1)
            &&& splice(b, q[i].0, q[i].1, q[i].2) == sfx(src, q, 0, n - k - 1, n)
        }),
{
    reveal(pfx);
    reveal(sfx);
    reveal(shift);
    let n = q.len() as int;
    let i = n - 1 - k;
    let b = sfx(src, q, 0, n - k, n);
    lemma_around(src, q, i, n - k, n);
    lemma_shift_none(q, i, n - k, n);
    lemma_toggle(src, q, i, n - k, n, n - k - 1, n);
    let pre = pfx(src, q, i, n - k, n) + gap(src, q, i);
    assert(0 <= q[i].0 <= q[i].1 <= src.len());
    assert(!in_window(n - k, n, i));
    assert(in_window(n - k - 1, n, i));
    assert(b =~= pre + src.subrange(q[i].0, q[i].1) + sfx(src, q, i + 1, n - k, n));
    assert(b.subrange(q[i].0, q[i].1) =~= src.subrange(q[i].0, q[i].1));
    assert(splice(b, q[i].0, q[i].1, q[i].2) =~= pre + q[i].2 + sfx(src, q, i + 1, n - k, n));
}

/// Reverting span `i = n - 1 - k` of the buffer with the spans below
/// `n - k` patched, at offset `a`.
proof fn lemma_revert_one(src: Seq<u8>, q: Seq<Span>, k: int, a: int)
    requires
        spaced(src, q),
        0 <= k < q.len(),
        a == q[q.len() - 1 - k].0 + shift(q, q.len() - 1 - k, 0, q.len() as int),
    ensures
        ({
            let n = q.len() as int;
            let i = n - 1 - k;
            let b = sfx(src, q, 0, 0, n - k);
            &&& 0 <= a
            &&& a + q[i].2.len() <= b.len()
            &&& b.subrange(a, a + q[i].2.len()) == q[i].2
            &&& splice(b, a, a + q[i].2.len(), src.subrange(q[i].0, q[i].1)) == sfx(
                src,
                q,
                0,
                0,
                n - k - 1,
            )
        }),
{
    reveal(pfx);
    reveal(sfx);
    reveal(shift);
    let n = q.len() as int;
    let i = n - 1 - k;
    let b = sfx(src, q, 0, 0, n - k);
    lemma_around(src, q, i, 0, n - k);
    lemma_pfx_dep(src, q, i, 0, n - k, 0, n);
    lemma_toggle(src, q, i, 0, n - k, 0, n - k - 1);
    let pre = pfx(src, q, i, 0, n - k) + gap(src, q, i);
    assert(in_window(0, n - k, i));
    assert(!in_window(0, n - k - 1, i));
    assert(pre.len() == a);
    let end = a + q[i].2.len();
    assert(b =~= pre + q[i].2 + sfx(src, q, i + 1, 0, n - k));
    assert(b.subrange(a, end) =~= q[i].2);
    assert(splice(b, a, end, src.subrange(q[i].0, q[i].1)) =~= pre + src.subrange(q[i].0, q[i].1)
        + sfx(src, q, i + 1, 0, n - k));
}

/// The spans of the entries `es[o[..]]`, in reverse step order.
pub open spec fn spans_of(es: Seq<PatchEntry>, o: Seq<usize>) -> Seq<Span> {
    Seq::new(
        o.len(),
        |i: int|
            {
                let e = es[o[o.len() - 1 - i] as int];
                (e.span_bytes.start as int, e.span_bytes.end as int, repl_bytes(e))
            },
    )
}

/// Splicing `es[o[k..]]` into the buffer with the spans above step `k`
/// already patched gives the fully patched buffer, and the steps replace
/// the original bytes of their spans.
proof fn lemma_apply_steps(src: Seq<u8>, es: Seq<PatchEntry>, o: Seq<usize>, k: int)
    requires
        spaced(src, spans_of(es, o)),
        forall|i: int|
            0 <= i < o.len() ==> valid_utf8(
                #[trigger] src.subrange(spans_of(es, o)[i].0, spans_of(es, o)[i].1),
            ),
        0 <= k <= o.len(),
    ensures
        run_splices(sfx(src, spans_of(es, o), 0, o.len() - k, o.len() as int), es, o.skip(k))
            == Ok::<Seq<u8>, ApplyError>(sfx(src, spans_of(es, o), 0, 0, o.len() as int)),
        run_befores(sfx(src, spans_of(es, o), 0, o.len() - k, o.len() as int), es, o.skip(k))
            == Seq::new(
            (o.len() - k) as nat,
            |m: int|
                src.subrange(
                    spans_of(es, o)[o.len() - 1 - k - m].0,
                    spans_of(es, o)[o.len() - 1 - k - m].1,
                ),
        ),
    decreases o.len() - k,
{
    let q = spans_of(es, o);
    let n = o.len() as int;
    let bs = Seq::new(
        (n - k) as nat,
        |m: int| src.subrange(q[n - 1 - k - m].0, q[n - 1 - k - m].1),
    );
    if k < n {
        let i = n - 1 - k;
        let b = sfx(src, q, 0, n - k, n);
        lemma_patch_one(src, q, k);
        lemma_apply_steps(src, es, o, k + 1);
        let rest = o.skip(k);
        assert(rest[0] == o[k]);
        assert(rest.drop_first() =~= o.skip(k + 1));
        let e = es[o[k] as int];
        assert(q[i] == (e.span_bytes.start as int, e.span_bytes.end as int, repl_bytes(e)));
        assert(valid_utf8(src.subrange(q[i].0, q[i].1)));
        assert(run_befores(b, es, rest) == seq![src.subrange(q[i].0, q[i].1)] + run_befores(
            sfx(src, q, 0, n - k - 1, n),
            es,
            o.skip(k + 1),
        ));
        assert(run_befores(b, es, rest) =~= bs);
    } else {
        assert(o.skip(k).len() == 0);
        assert(run_befores(sfx(src, q, 0, n - k, n), es, o.skip(k)) =~= bs);
    }
}

#[verifier::rlimit(40)]
/// Reverting, top first, the sorted entries `ss` (which record the spans
/// `q` at the shifted offsets `keys`) in the buffer with the spans below
/// `n - k` patched restores the original.
proof fn lemma_undo_steps(
    src: Seq<u8>,
    q: Seq<Span>,
    ss: Seq<ManifestEntryView>,
    keys: Seq<usize>,
    k: int,
)
    requires
        spaced(src, q),
        q.len() <= usize::MAX,
        ss.len() == q.len(),
        keys.len() == q.len(),
        forall|i: int|
            0 <= i < q.len() ==> encode_utf8(#[trigger] ss[i].after) == q[i].2 && encode_utf8(
                ss[i].before,
            ) == src.subrange(q[i].0, q[i].1),
        forall|i: int| 0 <= i < q.len() ==> #[trigger] keys[i] == q[i].0 + shift(q, i, 0, q.len() as int),
        0 <= k <= q.len(),
    ensures
        run_reverts(
            sfx(src, q, 0, 0, q.len() - k),
            ss,
            keys,
            Seq::new(q.len(), |m: int| (q.len() - 1 - m) as usize).skip(k),
        ) == Ok::<Seq<u8>, UndoError>(src),
    decreases q.len() - k,
{
    let n = q.len() as int;
    let d = Seq::new(q.len(), |m: int| (q.len() - 1 - m) as usize);
    if k < n {
        let i = n - 1 - k;
        let a = keys[i] as int;
        let b = sfx(src, q, 0, 0, n - k);
        lemma_revert_one(src, q, k, a);
        lemma_undo_steps(src, q, ss, keys, k + 1);
        let rest = d.skip(k);
        assert(rest[0] == i as usize);
        assert(rest.drop_first() =~= d.skip(k + 1));
        let e = ss[i];
        assert(encode_utf8(e.after) == q[i].2);
        encode_utf8_valid_utf8(e.after);
        let end = a + after_len(e);
        assert(end == a + q[i].2.len());
        assert(end <= b.len());
        assert(valid_utf8(b.subrange(a, end)));
        assert(b.subrange(a, end) == encode_utf8(e.after));
        assert(splice(b, a, end, encode_utf8(e.before)) == sfx(src, q, 0, 0, n - k - 1));
        assert(run_reverts(b, ss, keys, rest) == run_reverts(
            sfx(src, q, 0, 0, n - k - 1),
            ss,
            keys,
            d.skip(k + 1),
        ));
    } else {
        lemma_sfx_original(src, q, 0, 0, 0);
        assert(d.skip(k).len() == 0);
        assert(src.skip(0) =~= src);
    }
}

proof fn lemma_shift_step(q: Seq<Span>, i: int, lo: int, hi: int)
    requires
        0 <= i,
    ensures
        shift(q, i + 1, lo, hi) == shift(q, i, lo, hi) + if in_window(lo, hi, i) {
            q[i].2.len() - (q[i].1 - q[i].0)
        } else {
            0
        },
{
    reveal(shift);
}

proof fn lemma_shift_matches(q: Seq<Span>, ss: Seq<ManifestEntryView>, i: int)
    requires
        ss.len() == q.len(),
        0 <= i <= q.len(),
        forall|j: int|
            0 <= j < q.len() ==> after_len(#[trigger] ss[j]) == q[j].2.len() && before_len(ss[j])
                == q[j].1 - q[j].0,
    ensures
        shift_before(ss, i) == shift(q, i, 0, q.len() as int),
    decreases i,
{
    reveal(shift);
    if i > 0 {
        lemma_shift_matches(q, ss, i - 1);
        assert(in_window(0, q.len() as int, i - 1));
        let e = ss[i - 1];
        assert(after_len(e) == q[i - 1].2.len());
    }
}

proof fn lemma_increasing(s: Seq<usize>, i: int, j: int)
    requires
        forall|k: int| 0 <= k < s.len() - 1 ==> #[trigger] s[k] < s[k + 1],
        0 <= i < j < s.len(),
    ensures
        s[i] < s[j],
    decreases j - i,
{
    if j > i + 1 {
        lemma_increasing(s, i, j - 1);
        assert(s[j - 1] < s[j]);
    }
}

proof fn lemma_replacement_nonempty(e: PatchEntry)
    ensures
        repl_bytes(e).len() >= 1,
{
    let c = replacement_spec(e.from, e.ctor, e.to);
    assert(dec(e.to as nat).len() >= 1);
    assert(c.len() >= 1);
    assert(encode_utf8(c) == encode_scalar(c[0] as u32) + encode_utf8(c.drop_first()));
}

/// Plan entries for one file that `apply` can splice and `undo` can
/// revert: spans within the file over UTF-8 text, at distinct starts, not
/// overlapping.
pub open spec fn well_placed(src: Seq<u8>, es: Seq<PatchEntry>) -> bool {
    &&& 0 < es.len() <= usize::MAX
    &&& forall|i: int|
        0 <= i < es.len() ==> !(#[trigger] es[i].from is Dynamic) && es[i].span_bytes.start
            <= es[i].span_bytes.end <= src.len() && valid_utf8(
            src.subrange(es[i].span_bytes.start as int, es[i].span_bytes.end as int),
        )
    &&& forall|i: int, j: int|
        0 <= i < es.len() && 0 <= j < es.len() && i != j ==> #[trigger] es[i].span_bytes.start
            != #[trigger] es[j].span_bytes.start && (es[i].span_bytes.end <= es[j].span_bytes.start
            || es[j].span_bytes.end <= es[i].span_bytes.start)
}

/// The apply order runs down the starts, and the spans it visits, read
/// backwards, are spaced.
proof fn lemma_order_spaced(src: Seq<u8>, es: Seq<PatchEntry>)
    requires
        well_placed(src, es),
    ensures
        apply_order(es).len() == es.len(),
        distinct_below(apply_order(es), es.len() as nat),
        forall|k: int, l: int|
            0 <= k < l < es.len() ==> es[apply_order(es)[k] as int].span_bytes.start > es[apply_order(
                es,
            )[l] as int].span_bytes.start,
        spaced(src, spans_of(es, apply_order(es))),
        forall|i: int|
            0 <= i < es.len() ==> valid_utf8(
                #[trigger] src.subrange(
                    spans_of(es, apply_order(es))[i].0,
                    spans_of(es, apply_order(es))[i].1,
                ),
            ),
{
    let n = es.len() as int;
    let keys0 = span_starts(es);
    let o = apply_order(es);
    lemma_stable_order(keys0, true, n as nat);
    assert forall|k: int, l: int| 0 <= k < l < n implies es[o[k] as int].span_bytes.start
        > es[o[l] as int].span_bytes.start by {
        assert(in_order(keys0, true, o[k], o[l]));
        assert(o[k] != o[l]);
        assert(o[k] < n && o[l] < n);
    }
    let q = spans_of(es, o);
    assert forall|i: int| 0 <= i < q.len() implies 0 <= #[trigger] q[i].0 <= q[i].1 <= src.len() by {
        assert(o[n - 1 - i] < n);
    }
    assert forall|i: int| 0 <= i < q.len() - 1 implies #[trigger] q[i].1 <= q[i + 1].0 by {
        let x = o[n - 1 - i] as int;
        let y = o[n - 2 - i] as int;
        assert(es[y].span_bytes.start > es[x].span_bytes.start);
        assert(x < n && y < n && x != y);
    }
    assert forall|i: int| 0 <= i < n implies valid_utf8(
        #[trigger] src.subrange(q[i].0, q[i].1),
    ) by {
        assert(o[n - 1 - i] < n);
    }
}

/// Manifest entry `i` records span `i` in ascending order.
pub open spec fn manifest_entry_ok(file: Seq<char>, src: Seq<u8>, es: Seq<PatchEntry>, i: int) -> bool {
    let q = spans_of(es, apply_order(es));
    let m = manifest_for(file, src, es);
    &&& m[i].start == q[i].0
    &&& encode_utf8(m[i].after) == q[i].2
    &&& encode_utf8(m[i].before) == src.subrange(q[i].0, q[i].1)
    &&& after_len(m[i]) == q[i].2.len()
    &&& before_len(m[i]) == q[i].1 - q[i].0
    &&& m[i].sha_before == hex_sha256_spec(src)
    &&& m[i].sha_after == hex_sha256_spec(patched_bytes(src, es))
}

/// What the manifest of a well-placed file records, entry by entry.
proof fn lemma_manifest_entries(file: Seq<char>, src: Seq<u8>, es: Seq<PatchEntry>)
    requires
        well_placed(src, es),
    ensures
        run_splices(src, es, apply_order(es)) == Ok::<Seq<u8>, ApplyError>(
            sfx(src, spans_of(es, apply_order(es)), 0, 0, es.len() as int),
        ),
        manifest_for(file, src, es).len() == es.len(),
        forall|i: int| 0 <= i < es.len() ==> #[trigger] manifest_entry_ok(file, src, es, i),
{
    let n = es.len() as int;
    let o = apply_order(es);
    lemma_order_spaced(src, es);
    let q = spans_of(es, o);
    lemma_sfx_original(src, q, 0, n, n);
    assert(src.skip(0) =~= src);
    lemma_apply_steps(src, es, o, 0);
    assert(o.skip(0) =~= o);
    let out = sfx(src, q, 0, 0, n);
    let bef = run_befores(src, es, o);
    let st = step_starts(es, o);
    assert forall|i: int, j: int| 0 <= i < j < n implies #[trigger] strictly_in_order(
        st,
        false,
        j,
        i,
    ) by {}
    lemma_stable_order_reverse(st, false, n as nat);
    let m = manifest_for(file, src, es);
    assert(patched_bytes(src, es) == out);
    assert forall|i: int| 0 <= i < n implies #[trigger] manifest_entry_ok(file, src, es, i) by {
        assert(m[i] == step_record(
            file,
            es,
            o,
            bef,
            n - 1 - i,
            hex_sha256_spec(src),
            hex_sha256_spec(out),
        ));
        assert(bef[n - 1 - i] == src.subrange(q[i].0, q[i].1));
        decode_utf8_encode_utf8(src.subrange(q[i].0, q[i].1));
    }
}

/// Undo finds the manifest already sorted, and its shifted offsets are
/// where the spans stand in the patched file.
proof fn lemma_undo_view(file: Seq<char>, src: Seq<u8>, es: Seq<PatchEntry>)
    requires
        well_placed(src, es),
        patched_bytes(src, es).len() <= usize::MAX,
    ensures
        sorted_entries(manifest_for(file, src, es)) == manifest_for(file, src, es),
        forall|i: int|
            0 <= i < es.len() ==> #[trigger] shifted_start(manifest_for(file, src, es), i)
                == spans_of(es, apply_order(es))[i].0 + shift(
                spans_of(es, apply_order(es)),
                i,
                0,
                es.len() as int,
            ),
        shifts_in_range(manifest_for(file, src, es)),
{
    let n = es.len() as int;
    let o = apply_order(es);
    lemma_order_spaced(src, es);
    lemma_manifest_entries(file, src, es);
    let q = spans_of(es, o);
    let out = sfx(src, q, 0, 0, n);
    let m = manifest_for(file, src, es);
    let vs = view_starts(m);
    assert forall|i: int, j: int| 0 <= i < j < n implies #[trigger] strictly_in_order(
        vs,
        false,
        i,
        j,
    ) by {
        let x = o[n - 1 - i] as int;
        let y = o[n - 1 - j] as int;
        assert(es[y].span_bytes.start > es[x].span_bytes.start);
        assert(manifest_entry_ok(file, src, es, i) && manifest_entry_ok(file, src, es, j));
    }
    lemma_stable_order_identity(vs, false, n as nat);
    assert(sorted_entries(m) =~= m);
    assert forall|j: int| 0 <= j < q.len() implies after_len(#[trigger] m[j]) == q[j].2.len()
        && before_len(m[j]) == q[j].1 - q[j].0 by {
        assert(manifest_entry_ok(file, src, es, j));
    }
    assert forall|i: int| 0 <= i < n implies #[trigger] shifted_start(m, i) == q[i].0 + shift(
        q,
        i,
        0,
        n,
    ) && 0 <= shifted_start(m, i) && shifted_start(m, i) + after_len(m[i]) <= out.len() by {
        lemma_shift_matches(q, m, i);
        lemma_around(src, q, i, 0, n);
        assert(in_window(0, n, i));
        assert(manifest_entry_ok(file, src, es, i));
        assert(piece(src, q, i, 0, n) == q[i].2);
    }
}

#[verifier::rlimit(50)]
/// The shifted offsets rise with the spans.
proof fn lemma_keys_rise(file: Seq<char>, src: Seq<u8>, es: Seq<PatchEntry>)
    requires
        well_placed(src, es),
        patched_bytes(src, es).len() <= usize::MAX,
    ensures
        forall|i: int, j: int|
            0 <= i < j < es.len() ==> #[trigger] strictly_in_order(
                shifted_keys(manifest_for(file, src, es)),
                true,
                j,
                i,
            ),
{
    let n = es.len() as int;
    let o = apply_order(es);
    lemma_order_spaced(src, es);
    lemma_manifest_entries(file, src, es);
    lemma_undo_view(file, src, es);
    let q = spans_of(es, o);
    let m = manifest_for(file, src, es);
    let keys = shifted_keys(m);
    assert(shifts_in_range(m));
    assert forall|i: int| 0 <= i < n - 1 implies #[trigger] keys[i] < keys[i + 1] by {
        let a = shifted_start(m, i);
        let b = shifted_start(m, i + 1);
        assert(a == q[i].0 + shift(q, i, 0, n));
        assert(b == q[i + 1].0 + shift(q, i + 1, 0, n));
        lemma_shift_step(q, i, 0, n);
        assert(in_window(0, n, i));
        assert(q[i].1 <= q[i + 1].0);
        lemma_replacement_nonempty(es[o[n - 1 - i] as int]);
        assert(q[i].2.len() >= 1);
        assert(a < b);
        assert(0 <= a && 0 <= b);
        assert(keys[i] == a && keys[i + 1] == b);
    }
    assert forall|i: int, j: int| 0 <= i < j < n implies #[trigger] strictly_in_order(
        keys,
        true,
        j,
        i,
    ) by {
        lemma_increasing(keys, i, j);
    }
}

/// Undoing the manifest that patching a file recorded restores the file
/// byte for byte.  For plan entries whose spans lie within the file, cover
/// UTF-8 text, start at distinct offsets and do not overlap, `apply`
/// succeeds, and `undo` of its manifest on the patched bytes gives back the
/// original bytes.
pub proof fn lemma_undo_restores_apply(file: Seq<char>, src: Seq<u8>, es: Seq<PatchEntry>)
    requires
        well_placed(src, es),
        patched_bytes(src, es).len() <= usize::MAX,
    ensures
        run_splices(src, es, apply_order(es)) is Ok,
        undo_spec(manifest_for(file, src, es), patched_bytes(src, es)) == Ok::<Seq<u8>, UndoError>(
            src,
        ),
{
    let n = es.len() as int;
    let o = apply_order(es);
    lemma_order_spaced(src, es);
    lemma_manifest_entries(file, src, es);
    lemma_undo_view(file, src, es);
    lemma_keys_rise(file, src, es);
    let q = spans_of(es, o);
    let m = manifest_for(file, src, es);
    let ss = sorted_entries(m);
    let keys = shifted_keys(ss);
    lemma_stable_order_reverse(keys, true, n as nat);
    assert forall|i: int| 0 <= i < q.len() implies #[trigger] keys[i] == q[i].0 + shift(
        q,
        i,
        0,
        q.len() as int,
    ) by {
        assert(shifted_start(m, i) == q[i].0 + shift(q, i, 0, n));
    }
    assert forall|i: int| 0 <= i < q.len() implies encode_utf8(#[trigger] ss[i].after) == q[i].2
        && encode_utf8(ss[i].before) == src.subrange(q[i].0, q[i].1) by {
        assert(manifest_entry_ok(file, src, es, i));
    }
    lemma_undo_steps(src, q, ss, keys, 0);
    assert(Seq::new(q.len(), |k: int| (q.len() - 1 - k) as usize).skip(0) =~= Seq::new(
        q.len(),
        |k: int| (q.len() - 1 - k) as usize,
    ));
    assert(manifest_entry_ok(file, src, es, 0));
}

/// Whether a manifest entry records a splice of file `f`.
pub open spec fn of_file(f: Seq<char>) -> spec_fn(ManifestEntryView) -> bool {
    |e: ManifestEntryView| e.file == f
}

/// The manifest of patching the first `k` files: file `files[i]`, whose
/// contents were `srcs[i]`, with the entries `ess[i]`, one after another.
pub open spec fn manifests_upto(
    files: Seq<Seq<char>>,
    srcs: Seq<Seq<u8>>,
    ess: Seq<Seq<PatchEntry>>,
    k: int,
) -> Seq<ManifestEntryView>
    decreases k,
{
    if k <= 0 {
        seq![]
    } else {
        manifests_upto(files, srcs, ess, k - 1) + manifest_for(files[k - 1], srcs[k - 1], ess[k - 1])
    }
}

/// Taking the entries of one file from entries that all belong to file
/// `g` keeps them all or none.
proof fn lemma_filter_one_file(s: Seq<ManifestEntryView>, g: Seq<char>, f: Seq<char>)
    requires
        forall|i: int| 0 <= i < s.len() ==> (#[trigger] s[i]).file == g,
    ensures
        s.filter(of_file(f)) == (if g == f {
            s
        } else {
            Seq::<ManifestEntryView>::empty()
        }),
    decreases s.len(),
{
    reveal(Seq::filter);
    if s.len() > 0 {
        lemma_filter_one_file(s.drop_last(), g, f);
        assert(s.drop_last().push(s.last()) =~= s);
    }
}

/// The entries of file `f` in the manifest of the first `k` files: those
/// of the one file among them named `f`, if any.
proof fn lemma_manifests_of_file(
    files: Seq<Seq<char>>,
    srcs: Seq<Seq<u8>>,
    ess: Seq<Seq<PatchEntry>>,
    k: int,
    j: int,
)
    requires
        0 <= k <= files.len(),
        0 <= j < files.len(),
        forall|a: int, b: int| 0 <= a < b < files.len() ==> #[trigger] files[a] != #[trigger] files[b],
    ensures
        manifests_upto(files, srcs, ess, k).filter(of_file(files[j])) == (if j < k {
            manifest_for(files[j], srcs[j], ess[j])
        } else {
            Seq::<ManifestEntryView>::empty()
        }),
    decreases k,
{
    if k > 0 {
        lemma_manifests_of_file(files, srcs, ess, k - 1, j);
        let last = manifest_for(files[k - 1], srcs[k - 1], ess[k - 1]);
        Seq::filter_distributes_over_add(manifests_upto(files, srcs, ess, k - 1), last, of_file(files[j]));
        lemma_filter_one_file(last, files[k - 1], files[j]);
        if j < k - 1 {
            assert(files[j] != files[k - 1]);
        }
        assert(Seq::<ManifestEntryView>::empty() + last =~= last);
        assert(manifest_for(files[j], srcs[j], ess[j]) + Seq::<ManifestEntryView>::empty() =~= manifest_for(
            files[j],
            srcs[j],
            ess[j],
        ));
        assert(Seq::<ManifestEntryView>::empty() + Seq::<ManifestEntryView>::empty() =~= Seq::<
            ManifestEntryView,
        >::empty());
    } else {
        reveal(Seq::filter);
    }
}

/// Undoing an apply over several files restores every one of them: in the
/// manifest that patching distinct files one after another records, the
/// entries of each file are exactly the ones patching that file recorded,
/// and undoing them on its patched bytes gives back its bytes before.
pub proof fn lemma_undo_restores_every_file(files: Seq<Seq<char>>, srcs: Seq<Seq<u8>>, ess: Seq<Seq<PatchEntry>>)
    requires
        files.len() == srcs.len() == ess.len(),
        forall|a: int, b: int| 0 <= a < b < files.len() ==> #[trigger] files[a] != #[trigger] files[b],
        forall|i: int| 0 <= i < files.len() ==> well_placed(#[trigger] srcs[i], ess[i]),
        forall|i: int| 0 <= i < files.len() ==> (#[trigger] patched_bytes(srcs[i], ess[i])).len() <= usize::MAX,
    ensures
        forall|i: int|
            0 <= i < files.len() ==> {
                let m = manifests_upto(files, srcs, ess, files.len() as int).filter(of_file(#[trigger] files[i]));
                &&& m == manifest_for(files[i], srcs[i], ess[i])
                &&& undo_spec(m, patched_bytes(srcs[i], ess[i])) == Ok::<Seq<u8>, UndoError>(srcs[i])
            },
{
    assert forall|i: int| 0 <= i < files.len() implies {
        let m = manifests_upto(files, srcs, ess, files.len() as int).filter(of_file(#[trigger] files[i]));
        &&& m == manifest_for(files[i], srcs[i], ess[i])
        &&& undo_spec(m, patched_bytes(srcs[i], ess[i])) == Ok::<Seq<u8>, UndoError>(srcs[i])
    } by {
        lemma_manifests_of_file(files, srcs, ess, files.len() as int, i);
        assert(well_placed(srcs[i], ess[i]));
        assert(patched_bytes(srcs[i], ess[i]).len() <= usize::MAX);
        lemma_undo_restores_apply(files[i], srcs[i], ess[i]);
    }
}

/// The files of a list of manifest entries.
pub open spec fn entry_files(v: Seq<ManifestEntryView>) -> Seq<Seq<char>> {
    Seq::new(v.len(), |i: int| v[i].file)
}

/// The entries that grouping a manifest by file picks for `f`, in
/// manifest order, are the manifest's entries of file `f`: what `undo`
/// reverts for a file is exactly what `of_file` selects.
pub proof fn lemma_group_selects_file(v: Seq<ManifestEntryView>, f: Seq<char>, n: int)
    requires
        0 <= n <= v.len() <= usize::MAX,
    ensures
        forall|k: int|
            0 <= k < crate::paths::members_of(entry_files(v), f, n).len() ==> #[trigger] crate::paths::members_of(
                entry_files(v),
                f,
                n,
            )[k] < n,
        Seq::new(
            crate::paths::members_of(entry_files(v), f, n).len(),
            |k: int| v[crate::paths::members_of(entry_files(v), f, n)[k] as int],
        ) == v.take(n).filter(of_file(f)),
    decreases n,
{
    reveal(Seq::filter);
    if n > 0 {
        lemma_group_selects_file(v, f, n - 1);
        assert(v.take(n).drop_last() =~= v.take(n - 1));
        assert(v.take(n).last() == v[n - 1]);
        let mem = crate::paths::members_of(entry_files(v), f, n);
        let mem0 = crate::paths::members_of(entry_files(v), f, n - 1);
        assert(entry_files(v)[n - 1] == v[n - 1].file);
        if v[n - 1].file == f {
            assert(mem == mem0.push((n - 1) as usize));
            let w = Seq::new(mem0.len(), |j: int| v[mem0[j] as int]);
            let w2 = Seq::new(mem.len(), |j: int| v[mem[j] as int]);
            assert forall|k: int| 0 <= k < mem.len() implies #[trigger] w2[k] == w.push(v[n - 1])[k] by {
                if k < mem0.len() {
                    assert(mem[k] == mem0[k]);
                    assert(w.push(v[n - 1])[k] == w[k]);
                } else {
                    assert(k == mem0.len());
                    assert(mem[k] == (n - 1) as usize);
                }
            }
            assert(w2 =~= w.push(v[n - 1]));
        } else {
            assert(mem == mem0);
        }
    } else {
        assert(v.take(0) =~= Seq::<ManifestEntryView>::empty());
        assert(Seq::new(0, |k: int| v[crate::paths::members_of(entry_files(v), f, 0)[k] as int]) =~= Seq::<
            ManifestEntryView,
        >::empty());
    }
}

/// Apply then undo, over a whole plan: in the manifest that patching
/// distinct files one after another records, the entries `undo` groups
/// under each file are exactly those patching that file recorded, and
/// reverting them on the patched bytes gives back every file as it was.
pub proof fn lemma_apply_then_undo_restores_all(files: Seq<Seq<char>>, srcs: Seq<Seq<u8>>, ess: Seq<Seq<PatchEntry>>)
    requires
        files.len() == srcs.len() == ess.len(),
        forall|a: int, b: int| 0 <= a < b < files.len() ==> #[trigger] files[a] != #[trigger] files[b],
        forall|i: int| 0 <= i < files.len() ==> well_placed(#[trigger] srcs[i], ess[i]),
        forall|i: int| 0 <= i < files.len() ==> (#[trigger] patched_bytes(srcs[i], ess[i])).len() <= usize::MAX,
        manifests_upto(files, srcs, ess, files.len() as int).len() <= usize::MAX,
    ensures
        forall|i: int|
            0 <= i < files.len() ==> {
                let m = manifests_upto(files, srcs, ess, files.len() as int);
                let at = crate::paths::members_of(entry_files(m), #[trigger] files[i], m.len() as int);
                let sel = Seq::new(at.len(), |k: int| m[at[k] as int]);
                &&& sel == manifest_for(files[i], srcs[i], ess[i])
                &&& undo_spec(sel, patched_bytes(srcs[i], ess[i])) == Ok::<Seq<u8>, UndoError>(srcs[i])
            },
{
    let m = manifests_upto(files, srcs, ess, files.len() as int);
    lemma_undo_restores_every_file(files, srcs, ess);
    assert(m.take(m.len() as int) =~= m);
    assert forall|i: int| 0 <= i < files.len() implies {
        let at = crate::paths::members_of(entry_files(m), #[trigger] files[i], m.len() as int);
        let sel = Seq::new(at.len(), |k: int| m[at[k] as int]);
        &&& sel == manifest_for(files[i], srcs[i], ess[i])
        &&& undo_spec(sel, patched_bytes(srcs[i], ess[i])) == Ok::<Seq<u8>, UndoError>(srcs[i])
    } by {
        lemma_group_selects_file(m, files[i], m.len() as int);
    }
}

} // verus!
