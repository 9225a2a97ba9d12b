//! Combining per-bench profile dumps into one.
//!
//! Sites are deduplicated by `(file, line, column)`; creation counts are
//! summed (saturating) and sample lists concatenated, in input order.  A
//! site with more samples than the reservoir cap keeps a reservoir sample of
//! them (Vitter's algorithm R, driven by a linear congruential generator
//! seeded from the site's location, so that merging the same inputs always
//! gives the same output).  The merged sites are ordered by their largest
//! sample, descending.
use vstd::prelude::*;

use crate::order::{in_order, lemma_stable_order, stable_order, stable_order_exec};
use vstd::utf8::encode_utf8;

verus! {

broadcast use vstd::string::group_string_axioms;

/// One site of a profile dump.
#[derive(Debug, Clone, PartialEq, Eq)]
pub struct DumpEntry {
    pub name: String,
    pub file: String,
    pub line: u32,
    pub column: u32,
    pub creation_count: u64,
    pub samples: Vec<usize>,
}

/// The mathematical value of a `DumpEntry`.
pub struct DumpEntryView {
    pub name: Seq<char>,
    pub file: Seq<char>,
    pub line: u32,
    pub column: u32,
    pub creation_count: u64,
    pub samples: Seq<usize>,
}

impl View for DumpEntry {
    type V = DumpEntryView;

    open spec fn view(&self) -> DumpEntryView {
        DumpEntryView {
            name: self.name@,
            file: self.file@,
            line: self.line,
            column: self.column,
            creation_count: self.creation_count,
            samples: self.samples@,
        }
    }
}

/// The arguments of `merge`.
pub struct MergeArgs {
    /// The dumps to merge (glob patterns already expanded).
    pub inputs: Vec<String>,
    /// Where the merged dump goes.
    pub output: String,
    /// Reservoir bound per site; zero is unlimited.
    pub reservoir_cap: usize,
}

/// Why a merge does not start.
#[derive(Debug, Clone, Copy, PartialEq, Eq)]
pub enum MergeError {
    /// No input dump was given.
    NoInputs,
}

/// A merge needs at least one input dump.
pub fn check_merge_inputs(args: &MergeArgs) -> (r: Result<(), MergeError>)
    ensures
        r == if args.inputs@.len() == 0 {
            Err::<(), MergeError>(MergeError::NoInputs)
        } else {
            Ok(())
        },
{
    if args.inputs.len() == 0 {
        Err(MergeError::NoInputs)
    } else {
        Ok(())
    }
}

/// Counts of a merge.
#[derive(Debug, Clone, Copy, PartialEq, Eq)]
pub struct MergeReport {
    pub inputs_count: usize,
    pub unique_sites: usize,
    pub total_samples_pre_reservoir: usize,
    pub total_samples_post: usize,
}

// ───────────────────────────── seeding and sampling ─────────────────────────────

/// `h × 33 + b` over the bytes, from 5381, wrapping (djb2).
pub open spec fn djb2(bytes: Seq<u8>) -> u64
    decreases bytes.len(),
{
    if bytes.len() == 0 {
        5381
    } else {
        vstd::wrapping::u64_specs::wrapping_add(
            vstd::wrapping::u64_specs::wrapping_mul(djb2(bytes.drop_last()), 33),
            bytes.last() as u64,
        )
    }
}

/// The seed of a site: the djb2 hash of its file path's bytes, mixed with
/// its line and column.
pub open spec fn site_seed_spec(file: Seq<char>, line: u32, column: u32) -> u64 {
    djb2(encode_utf8(file)) ^ vstd::wrapping::u64_specs::wrapping_mul(
        line as u64,
        0x9e37_79b9_7f4a_7c15,
    ) ^ vstd::wrapping::u64_specs::wrapping_mul(column as u64, 0x6c62_272e_07bb_0142)
}

/// Deterministic seed derived from a site's location, so that merges of
/// the same inputs always give the same output.
pub fn site_seed(file: &str, line: u32, column: u32) -> (r: u64)
    ensures
        r == site_seed_spec(file@, line, column),
{
    let bytes = file.as_bytes();
    let mut h: u64 = 5381;
    let mut i: usize = 0;
    while i < bytes.len()
        invariant
            i <= bytes.len(),
            bytes@ == encode_utf8(file@),
            h == djb2(bytes@.take(i as int)),
        decreases bytes.len() - i,
    {
        assert(bytes@.take(i + 1).drop_last() =~= bytes@.take(i as int));
        h = h.wrapping_mul(33).wrapping_add(bytes[i] as u64);
        i = i + 1;
    }
    assert(bytes@.take(bytes.len() as int) =~= bytes@);
    h = h ^ (line as u64).wrapping_mul(0x9e37_79b9_7f4a_7c15);
    h = h ^ (column as u64).wrapping_mul(0x6c62_272e_07bb_0142);
    h
}

/// LCG multiplier (Knuth, TAOCP Vol. 2).
pub const LCG_A: u64 = 6_364_136_223_846_793_005;

/// LCG increment.
pub const LCG_C: u64 = 1_442_695_040_888_963_407;

/// The next LCG state.
#[verifier::opaque]
pub open spec fn lcg_step(s: u64) -> u64 {
    vstd::wrapping::u64_specs::wrapping_add(
        vstd::wrapping::u64_specs::wrapping_mul(s, LCG_A),
        LCG_C,
    )
}

/// Advance the LCG state and return its upper 32 bits modulo `modulus`.
pub fn lcg_next(state: &mut u64, modulus: u64) -> (r: u64)
    requires
        modulus > 0,
    ensures
        *final(state) == lcg_step(*old(state)),
        r == (*final(state) / 0x1_0000_0000) % modulus,
{
    proof {
        reveal(lcg_step);
    }
    *state = state.wrapping_mul(LCG_A).wrapping_add(LCG_C);
    let s = *state;
    assert(s >> 32 == s / 0x1_0000_0000) by (bit_vector);
    (s >> 32) % modulus
}

/// Algorithm R from position `i` on, with the generator in state `s` and
/// the reservoir `res`: item `i` replaces slot `r` when the draw `r` in
/// `[0, i]` falls below the cap.
pub open spec fn reservoir_from(pop: Seq<usize>, cap: nat, s: u64, i: nat, res: Seq<usize>) -> Seq<
    usize,
>
    decreases pop.len() - i,
{
    if i >= pop.len() {
        res
    } else {
        let s2 = lcg_step(s);
        let r = (s2 / 0x1_0000_0000) % ((i + 1) as u64);
        let res2 = if r < cap {
            res.update(r as int, pop[i as int])
        } else {
            res
        };
        reservoir_from(pop, cap, s2, i + 1, res2)
    }
}

/// A reservoir sample of `cap` items of `pop`, or all of `pop` when it has
/// no more than `cap` items.
pub open spec fn reservoir_spec(pop: Seq<usize>, cap: nat, seed: u64) -> Seq<usize> {
    if pop.len() <= cap {
        pop
    } else {
        reservoir_from(pop, cap, seed, cap, pop.take(cap as int))
    }
}

/// Each step of algorithm R keeps the reservoir's size and draws only items
/// of the population.
proof fn lemma_reservoir_from(pop: Seq<usize>, cap: nat, s: u64, i: nat, res: Seq<usize>)
    requires
        res.len() == cap,
        pop.len() <= u64::MAX,
        forall|k: int| 0 <= k < res.len() ==> pop.contains(#[trigger] res[k]),
    ensures
        reservoir_from(pop, cap, s, i, res).len() == cap,
        forall|k: int|
            0 <= k < cap ==> pop.contains(#[trigger] reservoir_from(pop, cap, s, i, res)[k]),
    decreases pop.len() - i,
{
    if i < pop.len() {
        let s2 = lcg_step(s);
        let r: u64 = (s2 / 0x1_0000_0000) % ((i + 1) as u64);
        if (r as int) < (cap as int) {
            let ri = r as int;
            assert(0 <= ri < res.len());
            let res2 = res.update(ri, pop[i as int]);
            assert(res2.len() == res.len());
            assert(pop.contains(pop[i as int]));
            assert forall|k: int| 0 <= k < res2.len() implies pop.contains(#[trigger] res2[k]) by {
                if k != ri {
                    assert(res2[k] == res[k]);
                } else {
                    assert(res2[k] == pop[i as int]);
                }
            }
            lemma_reservoir_from(pop, cap, s2, i + 1, res2);
        } else {
            lemma_reservoir_from(pop, cap, s2, i + 1, res);
        }
    }
}

/// Each step of algorithm R keeps the reservoir within the items seen so
/// far, counting repeats.
proof fn lemma_reservoir_from_within(pop: Seq<usize>, cap: nat, s: u64, i: nat, res: Seq<usize>)
    requires
        res.len() == cap,
        cap <= i <= pop.len(),
        pop.len() <= u64::MAX,
        res.to_multiset().subset_of(pop.take(i as int).to_multiset()),
    ensures
        reservoir_from(pop, cap, s, i, res).to_multiset().subset_of(pop.to_multiset()),
    decreases pop.len() - i,
{
    broadcast use vstd::seq_lib::group_to_multiset_ensures, vstd::multiset::group_multiset_axioms;

    if i >= pop.len() {
        assert(pop.take(i as int) =~= pop);
    } else {
        let s2 = lcg_step(s);
        let r: u64 = (s2 / 0x1_0000_0000) % ((i + 1) as u64);
        let seen = pop.take(i as int);
        let seen2 = pop.take((i + 1) as int);
        assert(seen2 =~= seen.push(pop[i as int]));
        assert(seen2.to_multiset() == seen.to_multiset().insert(pop[i as int]));
        if (r as int) < (cap as int) {
            let ri = r as int;
            let res2 = res.update(ri, pop[i as int]);
            assert(res2.to_multiset() == res.to_multiset().insert(pop[i as int]).remove(res[ri]));
            assert forall|v: usize| #[trigger] res2.to_multiset().count(v) <= seen2.to_multiset().count(v) by {
                assert(res.to_multiset().count(v) <= seen.to_multiset().count(v));
            }
            lemma_reservoir_from_within(pop, cap, s2, i + 1, res2);
        } else {
            assert forall|v: usize| #[trigger] res.to_multiset().count(v) <= seen2.to_multiset().count(v) by {
                assert(res.to_multiset().count(v) <= seen.to_multiset().count(v));
            }
            lemma_reservoir_from_within(pop, cap, s2, i + 1, res);
        }
    }
}

/// A reservoir sample has `min(len, cap)` items, each an item of the
/// population; together they are a sub-multiset of the population (no
/// sample is kept more often than it occurs).
pub proof fn lemma_reservoir_sample(pop: Seq<usize>, cap: nat, seed: u64)
    requires
        pop.len() <= u64::MAX,
    ensures
        reservoir_spec(pop, cap, seed).len() == if pop.len() <= cap {
            pop.len()
        } else {
            cap
        },
        forall|k: int|
            0 <= k < reservoir_spec(pop, cap, seed).len() ==> pop.contains(
                #[trigger] reservoir_spec(pop, cap, seed)[k],
            ),
        reservoir_spec(pop, cap, seed).to_multiset().subset_of(pop.to_multiset()),
{
    if pop.len() <= cap {
        assert forall|k: int| 0 <= k < pop.len() implies pop.contains(#[trigger] pop[k]) by {}
    } else {
        let res = pop.take(cap as int);
        assert forall|k: int| 0 <= k < res.len() implies pop.contains(#[trigger] res[k]) by {
            assert(pop[k] == res[k]);
        }
        lemma_reservoir_from(pop, cap, seed, cap, res);
        lemma_reservoir_from_within(pop, cap, seed, cap, res);
    }
}

/// Vitter R reservoir sampling: exactly `cap` items of `population`, drawn
/// with the generator seeded by `seed`; all of it when it has no more than
/// `cap` items.
pub fn reservoir_sample(population: &[usize], cap: usize, seed: &u64) -> (r: Vec<usize>)
    ensures
        r@ == reservoir_spec(population@, cap as nat, *seed),
{
    let n = population.len();
    if n <= cap {
        let mut all: Vec<usize> = Vec::new();
        let mut k: usize = 0;
        while k < n
            invariant
                k <= n == population.len(),
                all@ == population@.take(k as int),
            decreases n - k,
        {
            all.push(population[k]);
            k = k + 1;
            assert(all@ =~= population@.take(k as int));
        }
        assert(population@.take(n as int) =~= population@);
        return all;
    }
    let mut res: Vec<usize> = Vec::new();
    let mut k: usize = 0;
    while k < cap
        invariant
            k <= cap < n == population.len(),
            res@ == population@.take(k as int),
        decreases cap - k,
    {
        res.push(population[k]);
        k = k + 1;
        assert(res@ =~= population@.take(k as int));
    }
    let mut state: u64 = *seed;
    let mut j: usize = cap;
    while j < n
        invariant
            cap <= j <= n == population.len(),
            res@.len() == cap,
            reservoir_spec(population@, cap as nat, *seed) == reservoir_from(
                population@,
                cap as nat,
                state,
                j as nat,
                res@,
            ),
        decreases n - j,
    {
        let r = lcg_next(&mut state, (j + 1) as u64) as usize;
        if r < cap {
            res.set(r, population[j]);
        }
        j = j + 1;
    }
    res
}

// ───────────────────────────── merging ─────────────────────────────

/// `a` comes before `b` in `String` order: character by character, a
/// proper prefix first.
pub open spec fn str_less(a: Seq<char>, b: Seq<char>) -> bool
    decreases a.len(),
{
    if a.len() == 0 {
        b.len() > 0
    } else if b.len() == 0 {
        false
    } else if a[0] == b[0] {
        str_less(a.drop_first(), b.drop_first())
    } else {
        a[0] < b[0]
    }
}

proof fn lemma_str_less_irreflexive(a: Seq<char>)
    ensures
        !str_less(a, a),
    decreases a.len(),
{
    if a.len() > 0 {
        lemma_str_less_irreflexive(a.drop_first());
    }
}

proof fn lemma_str_less_transitive(a: Seq<char>, b: Seq<char>, c: Seq<char>)
    requires
        str_less(a, b),
        str_less(b, c),
    ensures
        str_less(a, c),
    decreases a.len(),
{
    if a.len() > 0 && b.len() > 0 && c.len() > 0 && a[0] == b[0] && b[0] == c[0] {
        lemma_str_less_transitive(a.drop_first(), b.drop_first(), c.drop_first());
    }
}

proof fn lemma_str_less_total(a: Seq<char>, b: Seq<char>)
    requires
        a != b,
    ensures
        str_less(a, b) || str_less(b, a),
    decreases a.len(),
{
    if a.len() > 0 && b.len() > 0 && a[0] == b[0] {
        if a.drop_first() == b.drop_first() {
            assert(a =~= seq![a[0]] + a.drop_first());
            assert(b =~= seq![b[0]] + b.drop_first());
        }
        lemma_str_less_total(a.drop_first(), b.drop_first());
    } else if a.len() == 0 && b.len() == 0 {
        assert(a =~= b);
    }
}

/// Whether `a` comes before `b` in `String` order.
pub fn str_less_exec(a: &str, b: &str) -> (r: bool)
    ensures
        r == str_less(a@, b@),
{
    let x = crate::text::chars_of(a);
    let y = crate::text::chars_of(b);
    let mut i: usize = 0;
    assert(x@.skip(0) =~= x@ && y@.skip(0) =~= y@);
    loop
        invariant
            i <= x.len(),
            i <= y.len(),
            x@ == a@,
            y@ == b@,
            str_less(a@, b@) == str_less(x@.skip(i as int), y@.skip(i as int)),
        decreases x.len() - i,
    {
        let ghost xs = x@.skip(i as int);
        let ghost ys = y@.skip(i as int);
        if i == x.len() {
            return i < y.len();
        }
        if i == y.len() {
            return false;
        }
        let cx = x[i];
        let cy = y[i];
        assert(xs[0] == cx && ys[0] == cy);
        if cx != cy {
            return cx < cy;
        }
        assert(xs.drop_first() =~= x@.skip(i + 1));
        assert(ys.drop_first() =~= y@.skip(i + 1));
        i = i + 1;
    }
}

/// A site's location: file, line, column.
pub type SiteLoc = (Seq<char>, u32, u32);

/// The order of locations: by file, then line, then column.
pub open spec fn loc_less(a: SiteLoc, b: SiteLoc) -> bool {
    str_less(a.0, b.0) || (a.0 == b.0 && (a.1 < b.1 || (a.1 == b.1 && a.2 < b.2)))
}

proof fn lemma_loc_less_transitive(a: SiteLoc, b: SiteLoc, c: SiteLoc)
    requires
        loc_less(a, b),
        loc_less(b, c),
    ensures
        loc_less(a, c),
{
    if str_less(a.0, b.0) && str_less(b.0, c.0) {
        lemma_str_less_transitive(a.0, b.0, c.0);
    }
}

proof fn lemma_loc_less_total(a: SiteLoc, b: SiteLoc)
    requires
        a != b,
    ensures
        loc_less(a, b) || loc_less(b, a),
{
    if a.0 != b.0 {
        lemma_str_less_total(a.0, b.0);
    }
}

proof fn lemma_loc_less_irreflexive(a: SiteLoc)
    ensures
        !loc_less(a, a),
{
    lemma_str_less_irreflexive(a.0);
}

/// The location of an entry.
pub open spec fn loc_of(e: DumpEntryView) -> SiteLoc {
    (e.file, e.line, e.column)
}

/// All entries of all dumps, in input order.
pub open spec fn flatten(dumps: Seq<Seq<DumpEntryView>>) -> Seq<DumpEntryView>
    decreases dumps.len(),
{
    if dumps.len() == 0 {
        seq![]
    } else {
        flatten(dumps.drop_last()) + dumps.last()
    }
}

/// The views of a dump.
pub open spec fn dump_views(d: Seq<DumpEntry>) -> Seq<DumpEntryView> {
    Seq::new(d.len(), |i: int| d[i]@)
}

/// The views of several dumps.
pub open spec fn dumps_views(ds: Seq<Vec<DumpEntry>>) -> Seq<Seq<DumpEntryView>> {
    Seq::new(ds.len(), |i: int| dump_views(ds[i]@))
}

/// Whether some of the first `n` entries sit at `l`.
pub open spec fn seen(all: Seq<DumpEntryView>, l: SiteLoc, n: int) -> bool {
    exists|i: int| 0 <= i < n && #[trigger] loc_of(all[i]) == l
}

/// The name of the first of the first `n` entries at `l`.
pub open spec fn first_name(all: Seq<DumpEntryView>, l: SiteLoc, n: int) -> Seq<char>
    decreases n,
{
    if n <= 0 {
        seq![]
    } else if seen(all, l, n - 1) {
        first_name(all, l, n - 1)
    } else if loc_of(all[n - 1]) == l {
        all[n - 1].name
    } else {
        seq![]
    }
}

/// The saturating sum of the creation counts of the first `n` entries at
/// `l`.
pub open spec fn count_at(all: Seq<DumpEntryView>, l: SiteLoc, n: int) -> u64
    decreases n,
{
    if n <= 0 {
        0
    } else if loc_of(all[n - 1]) == l {
        let c = count_at(all, l, n - 1);
        if c + all[n - 1].creation_count > u64::MAX {
            u64::MAX
        } else {
            (c + all[n - 1].creation_count) as u64
        }
    } else {
        count_at(all, l, n - 1)
    }
}

/// The samples of the first `n` entries at `l`, concatenated.
pub open spec fn samples_at(all: Seq<DumpEntryView>, l: SiteLoc, n: int) -> Seq<usize>
    decreases n,
{
    if n <= 0 {
        seq![]
    } else if loc_of(all[n - 1]) == l {
        samples_at(all, l, n - 1) + all[n - 1].samples
    } else {
        samples_at(all, l, n - 1)
    }
}

/// The merged entry at `l` over the first `n` entries.
pub open spec fn merged_at(all: Seq<DumpEntryView>, l: SiteLoc, n: int) -> DumpEntryView {
    DumpEntryView {
        name: first_name(all, l, n),
        file: l.0,
        line: l.1,
        column: l.2,
        creation_count: count_at(all, l, n),
        samples: samples_at(all, l, n),
    }
}

/// `m` merges the first `n` entries of `all`: one entry per location, in
/// location order, each with the first name seen there, the saturating
/// sum of the creation counts and the concatenated samples.
pub open spec fn is_merge(m: Seq<DumpEntryView>, all: Seq<DumpEntryView>, n: int) -> bool {
    &&& forall|k: int, j: int| 0 <= k < j < m.len() ==> loc_less(loc_of(#[trigger] m[k]), loc_of(#[trigger] m[j]))
    &&& forall|k: int| 0 <= k < m.len() ==> seen(all, loc_of(#[trigger] m[k]), n)
    &&& forall|i: int| #![trigger all[i]] 0 <= i < n ==> exists|k: int| 0 <= k < m.len() && #[trigger] loc_of(m[k]) == loc_of(all[i])
    &&& forall|k: int| 0 <= k < m.len() ==> #[trigger] m[k] == merged_at(all, loc_of(m[k]), n)
}

/// Locations in strictly increasing order.
pub open spec fn strictly_sorted_locs(s: Seq<SiteLoc>) -> bool {
    forall|k: int, j: int| 0 <= k < j < s.len() ==> loc_less(#[trigger] s[k], #[trigger] s[j])
}

/// Two strictly increasing lists of the same locations are the same list.
proof fn lemma_sorted_locs_unique(a: Seq<SiteLoc>, b: Seq<SiteLoc>)
    requires
        strictly_sorted_locs(a),
        strictly_sorted_locs(b),
        forall|x: SiteLoc| a.contains(x) <==> b.contains(x),
    ensures
        a == b,
    decreases a.len(),
{
    if a.len() == 0 {
        if b.len() > 0 {
            assert(b.contains(b[0]));
        }
        assert(a =~= b);
    } else {
        assert(a.contains(a[0]));
        assert(b.contains(a[0]));
        assert(b.contains(b[0]));
        assert(a.contains(b[0]));
        let i = choose|i: int| 0 <= i < a.len() && a[i] == b[0];
        let j = choose|j: int| 0 <= j < b.len() && b[j] == a[0];
        if j > 0 {
            assert(loc_less(b[0], b[j]));
            lemma_loc_less_irreflexive(a[0]);
            if i > 0 {
                assert(loc_less(a[0], a[i]));
                lemma_loc_less_transitive(a[0], b[0], a[0]);
            }
            assert(false);
        }
        assert(a[0] == b[0]);
        let a1 = a.drop_first();
        let b1 = b.drop_first();
        assert forall|x: SiteLoc| a1.contains(x) <==> b1.contains(x) by {
            if a1.contains(x) {
                let k = choose|k: int| 0 <= k < a1.len() && a1[k] == x;
                assert(a[k + 1] == x);
                assert(loc_less(a[0], x));
                lemma_loc_less_irreflexive(x);
                assert(a.contains(x));
                let t = choose|t: int| 0 <= t < b.len() && b[t] == x;
                assert(t != 0);
                assert(b1[t - 1] == x);
            }
            if b1.contains(x) {
                let k = choose|k: int| 0 <= k < b1.len() && b1[k] == x;
                assert(b[k + 1] == x);
                assert(loc_less(b[0], x));
                lemma_loc_less_irreflexive(x);
                assert(b.contains(x));
                let t = choose|t: int| 0 <= t < a.len() && a[t] == x;
                assert(t != 0);
                assert(a1[t - 1] == x);
            }
        }
        assert forall|k: int, j: int| 0 <= k < j < a1.len() implies loc_less(#[trigger] a1[k], #[trigger] a1[j]) by {
            assert(a1[k] == a[k + 1] && a1[j] == a[j + 1]);
        }
        assert forall|k: int, j: int| 0 <= k < j < b1.len() implies loc_less(#[trigger] b1[k], #[trigger] b1[j]) by {
            assert(b1[k] == b[k + 1] && b1[j] == b[j + 1]);
        }
        lemma_sorted_locs_unique(a1, b1);
        assert(a =~= b) by {
            assert forall|k: int| 0 <= k < a.len() implies a[k] == b[k] by {
                if k > 0 {
                    assert(a[k] == a1[k - 1] && b[k] == b1[k - 1]);
                }
            }
        }
    }
}

/// The locations of a list of entries.
pub open spec fn locs(m: Seq<DumpEntryView>) -> Seq<SiteLoc> {
    m.map_values(|e: DumpEntryView| loc_of(e))
}

/// A merge of given entries is unique: there is one list of sites that
/// merges them, so merging the same dumps twice gives the same result.
pub proof fn lemma_merge_unique(m1: Seq<DumpEntryView>, m2: Seq<DumpEntryView>, all: Seq<DumpEntryView>, n: int)
    requires
        is_merge(m1, all, n),
        is_merge(m2, all, n),
    ensures
        m1 == m2,
{
    let a = locs(m1);
    let b = locs(m2);
    assert forall|k: int, j: int| 0 <= k < j < a.len() implies loc_less(#[trigger] a[k], #[trigger] a[j]) by {
        assert(loc_less(loc_of(m1[k]), loc_of(m1[j])));
    }
    assert forall|k: int, j: int| 0 <= k < j < b.len() implies loc_less(#[trigger] b[k], #[trigger] b[j]) by {
        assert(loc_less(loc_of(m2[k]), loc_of(m2[j])));
    }
    assert forall|x: SiteLoc| a.contains(x) <==> b.contains(x) by {
        if a.contains(x) {
            let k = choose|k: int| 0 <= k < a.len() && a[k] == x;
            assert(seen(all, loc_of(m1[k]), n));
            let i = choose|i: int| 0 <= i < n && #[trigger] loc_of(all[i]) == x;
            let t = choose|t: int| 0 <= t < m2.len() && #[trigger] loc_of(m2[t]) == loc_of(all[i]);
            assert(b[t] == x);
        }
        if b.contains(x) {
            let k = choose|k: int| 0 <= k < b.len() && b[k] == x;
            assert(seen(all, loc_of(m2[k]), n));
            let i = choose|i: int| 0 <= i < n && #[trigger] loc_of(all[i]) == x;
            let t = choose|t: int| 0 <= t < m1.len() && #[trigger] loc_of(m1[t]) == loc_of(all[i]);
            assert(a[t] == x);
        }
    }
    lemma_sorted_locs_unique(a, b);
    assert(m1.len() == a.len() && m2.len() == b.len());
    assert forall|k: int| 0 <= k < m1.len() implies m1[k] == m2[k] by {
        assert(a[k] == b[k]);
        assert(m1[k] == merged_at(all, loc_of(m1[k]), n));
        assert(m2[k] == merged_at(all, loc_of(m2[k]), n));
    }
    assert(m1 =~= m2);
}

/// A copy of an entry.
pub fn copy_entry(e: &DumpEntry) -> (r: DumpEntry)
    ensures
        r@ == e@,
{
    DumpEntry {
        name: e.name.clone(),
        file: e.file.clone(),
        line: e.line,
        column: e.column,
        creation_count: e.creation_count,
        samples: crate::samples::copy_samples(&e.samples),
    }
}

proof fn lemma_not_seen(all: Seq<DumpEntryView>, l: SiteLoc, n: int)
    requires
        !seen(all, l, n),
    ensures
        count_at(all, l, n) == 0,
        samples_at(all, l, n) == Seq::<usize>::empty(),
        first_name(all, l, n) == Seq::<char>::empty(),
    decreases n,
{
    if n > 0 {
        assert(!seen(all, l, n - 1)) by {
            if seen(all, l, n - 1) {
                let i = choose|i: int| 0 <= i < n - 1 && #[trigger] loc_of(all[i]) == l;
                assert(loc_of(all[i]) == l);
            }
        }
        assert(loc_of(all[n - 1]) != l);
        lemma_not_seen(all, l, n - 1);
    }
}

proof fn lemma_other_loc(all: Seq<DumpEntryView>, l: SiteLoc, i: int)
    requires
        0 <= i < all.len(),
        loc_of(all[i]) != l,
    ensures
        merged_at(all, l, i + 1) == merged_at(all, l, i),
        seen(all, l, i + 1) == seen(all, l, i),
{
    if seen(all, l, i + 1) {
        let j = choose|j: int| 0 <= j < i + 1 && #[trigger] loc_of(all[j]) == l;
        assert(j < i);
    }
    if !seen(all, l, i) {
        lemma_not_seen(all, l, i);
    }
}

/// Merge all entries of all dumps: one entry per location, in location
/// order, with the first name seen there, the saturating sum of the
/// creation counts and the samples concatenated in input order.
pub fn merge_sites(dumps: &Vec<Vec<DumpEntry>>) -> (m: Vec<DumpEntry>)
    ensures
        is_merge(
            dump_views(m@),
            flatten(dumps_views(dumps@)),
            flatten(dumps_views(dumps@)).len() as int,
        ),
{
    // All entries, in input order.
    let mut flat: Vec<DumpEntry> = Vec::new();
    let mut d: usize = 0;
    while d < dumps.len()
        invariant
            d <= dumps.len(),
            dump_views(flat@) == flatten(dumps_views(dumps@).take(d as int)),
        decreases dumps.len() - d,
    {
        let ghost before = dump_views(flat@);
        let dump = &dumps[d];
        let mut e: usize = 0;
        while e < dump.len()
            invariant
                e <= dump.len(),
                dump == dumps@[d as int],
                dump_views(flat@) == before + dump_views(dump@).take(e as int),
            decreases dump.len() - e,
        {
            let ghost old = flat@;
            let c = copy_entry(&dump[e]);
            flat.push(c);
            assert(dump_views(flat@) =~= dump_views(old).push(c@));
            e = e + 1;
            assert(dump_views(flat@) =~= before + dump_views(dump@).take(e as int));
        }
        assert(dumps_views(dumps@).take(d + 1).drop_last() =~= dumps_views(dumps@).take(d as int));
        assert(dump_views(dump@).take(dump.len() as int) =~= dump_views(dump@));
        d = d + 1;
    }
    assert(dumps_views(dumps@).take(dumps.len() as int) =~= dumps_views(dumps@));
    let ghost all = flatten(dumps_views(dumps@));
    // Accumulate by location.
    let mut acc: Vec<DumpEntry> = Vec::new();
    let mut i: usize = 0;
    while i < flat.len()
        invariant
            i <= flat.len(),
            dump_views(flat@) == all,
            is_merge(dump_views(acc@), all, i as int),
        decreases flat.len() - i,
    {
        let ghost m = dump_views(acc@);
        let ghost l = loc_of(all[i as int]);
        assert(flat@[i as int]@ == all[i as int]);
        let mut p: usize = 0;
        while p < acc.len() && (str_less_exec(acc[p].file.as_str(), flat[i].file.as_str()) || (
        acc[p].file == flat[i].file && (acc[p].line < flat[i].line || (acc[p].line
            == flat[i].line && acc[p].column < flat[i].column))))
            invariant
                p <= acc.len(),
                i < flat.len(),
                m == dump_views(acc@),
                l == loc_of(flat@[i as int]@),
                forall|k: int| 0 <= k < p ==> loc_less(loc_of(#[trigger] m[k]), l),
            decreases acc.len() - p,
        {
            assert(loc_less(loc_of(m[p as int]), l));
            p = p + 1;
        }
        let found = p < acc.len() && acc[p].file == flat[i].file && acc[p].line == flat[i].line
            && acc[p].column == flat[i].column;
        if found {
            assert(loc_of(m[p as int]) == l);
            let mut entry = acc.remove(p);
            assert(entry@ == m[p as int]);
            entry.creation_count = entry.creation_count.saturating_add(flat[i].creation_count);
            let mut s: usize = 0;
            let ghost s0 = entry.samples@;
            let ghost e0 = entry@;
            while s < flat[i].samples.len()
                invariant
                    s <= flat@[i as int].samples@.len(),
                    i < flat.len(),
                    entry.name@ == e0.name,
                    entry.file@ == e0.file,
                    entry.line == e0.line,
                    entry.column == e0.column,
                    entry.creation_count == e0.creation_count,
                    entry.samples@ == s0 + flat@[i as int].samples@.take(s as int),
                decreases flat@[i as int].samples@.len() - s,
            {
                entry.samples.push(flat[i].samples[s]);
                s = s + 1;
                assert(entry.samples@ =~= s0 + flat@[i as int].samples@.take(s as int));
            }
            assert(flat@[i as int].samples@.take(s as int) =~= flat@[i as int].samples@);
            acc.insert(p, entry);
            proof {
                let m2 = dump_views(acc@);
                assert(m2 =~= m.update(p as int, m2[p as int]));
                assert(seen(all, l, i as int)) by {
                    assert(seen(all, loc_of(m[p as int]), i as int));
                }
                assert(m[p as int] == merged_at(all, l, i as int));
                assert(loc_of(all[i as int]) == l);
                assert(first_name(all, l, i + 1) == first_name(all, l, i as int));
                assert(m2[p as int].name == m[p as int].name);
                assert(m2[p as int].name == first_name(all, l, i + 1));
                let c = count_at(all, l, i as int);
                assert(count_at(all, l, i + 1) == if c + all[i as int].creation_count > u64::MAX {
                    u64::MAX
                } else {
                    (c + all[i as int].creation_count) as u64
                });
                assert(m2[p as int].creation_count == count_at(all, l, i + 1));
                assert(m2[p as int].samples == samples_at(all, l, i + 1));
                assert(m2[p as int] == merged_at(all, l, i + 1));
                assert forall|k: int| 0 <= k < m2.len() && k != p implies #[trigger] m2[k]
                    == merged_at(all, loc_of(m2[k]), i + 1) && seen(all, loc_of(m2[k]), i + 1) by {
                    assert(m2[k] == m[k]);
                    if k < p {
                        assert(loc_less(loc_of(m[k]), loc_of(m[p as int])));
                    } else {
                        assert(loc_less(loc_of(m[p as int]), loc_of(m[k])));
                    }
                    lemma_loc_less_irreflexive(l);
                    assert(loc_of(all[i as int]) != loc_of(m2[k]));
                    lemma_other_loc(all, loc_of(m2[k]), i as int);
                }
                assert forall|k: int, j: int| 0 <= k < j < m2.len() implies loc_less(
                    loc_of(#[trigger] m2[k]),
                    loc_of(#[trigger] m2[j]),
                ) by {
                    assert(loc_of(m2[k]) == loc_of(m[k]) && loc_of(m2[j]) == loc_of(m[j]));
                }
                assert forall|j: int| #![trigger all[j]] 0 <= j < i + 1 implies exists|k: int|
                    0 <= k < m2.len() && #[trigger] loc_of(m2[k]) == loc_of(all[j]) by {
                    if j == i {
                        assert(loc_of(m2[p as int]) == loc_of(all[j]));
                    } else {
                        let k = choose|k: int| 0 <= k < m.len() && #[trigger] loc_of(m[k]) == loc_of(all[j]);
                        assert(loc_of(m2[k]) == loc_of(all[j]));
                    }
                }
            }
        } else {
            let entry = copy_entry(&flat[i]);
            proof {
                assert forall|k: int| 0 <= k < m.len() implies loc_of(#[trigger] m[k]) != l by {
                    lemma_loc_less_irreflexive(l);
                    if k >= p {
                        assert(!loc_less(loc_of(m[p as int]), l));
                        assert(loc_of(m[p as int]) != l);
                        lemma_loc_less_total(loc_of(m[p as int]), l);
                        if k > p {
                            lemma_loc_less_transitive(l, loc_of(m[p as int]), loc_of(m[k]));
                        }
                    }
                }
                assert(!seen(all, l, i as int)) by {
                    if seen(all, l, i as int) {
                        let j = choose|j: int| 0 <= j < i && #[trigger] loc_of(all[j]) == l;
                        let k = choose|k: int| 0 <= k < m.len() && #[trigger] loc_of(m[k]) == loc_of(all[j]);
                        assert(loc_of(m[k]) == l);
                    }
                }
                lemma_not_seen(all, l, i as int);
                assert(samples_at(all, l, i + 1) =~= all[i as int].samples);
            }
            acc.insert(p, entry);
            proof {
                let m2 = dump_views(acc@);
                assert(m2 =~= m.insert(p as int, entry@));
                assert(entry@ == merged_at(all, l, i + 1));
                assert(seen(all, l, i + 1)) by {
                    assert(loc_of(all[i as int]) == l);
                }
                assert forall|k: int| 0 <= k < m2.len() && k != p implies #[trigger] m2[k]
                    == merged_at(all, loc_of(m2[k]), i + 1) && seen(all, loc_of(m2[k]), i + 1) by {
                    let k0 = if k < p {
                        k
                    } else {
                        k - 1
                    };
                    assert(m2[k] == m[k0]);
                    assert(loc_of(m[k0]) != l);
                    lemma_other_loc(all, loc_of(m2[k]), i as int);
                }
                assert forall|k: int, j: int| 0 <= k < j < m2.len() implies loc_less(
                    loc_of(#[trigger] m2[k]),
                    loc_of(#[trigger] m2[j]),
                ) by {
                    if j < p {
                        assert(m2[k] == m[k] && m2[j] == m[j]);
                    } else if j == p {
                        assert(m2[k] == m[k]);
                    } else if k < p {
                        assert(m2[k] == m[k] && m2[j] == m[j - 1]);
                    } else if k == p {
                        assert(m2[j] == m[j - 1]);
                        lemma_loc_less_irreflexive(l);
                        assert(!loc_less(loc_of(m[p as int]), l));
                        assert(loc_of(m[p as int]) != l);
                        lemma_loc_less_total(loc_of(m[p as int]), l);
                        if j - 1 > p {
                            lemma_loc_less_transitive(l, loc_of(m[p as int]), loc_of(m[j - 1]));
                        }
                    } else {
                        assert(m2[k] == m[k - 1] && m2[j] == m[j - 1]);
                    }
                }
                assert forall|j: int| #![trigger all[j]] 0 <= j < i + 1 implies exists|k: int|
                    0 <= k < m2.len() && #[trigger] loc_of(m2[k]) == loc_of(all[j]) by {
                    if j == i {
                        assert(loc_of(m2[p as int]) == loc_of(all[j]));
                    } else {
                        let k = choose|k: int| 0 <= k < m.len() && #[trigger] loc_of(m[k]) == loc_of(all[j]);
                        if k < p {
                            assert(loc_of(m2[k]) == loc_of(all[j]));
                        } else {
                            assert(loc_of(m2[k + 1]) == loc_of(all[j]));
                        }
                    }
                }
            }
        }
        i = i + 1;
    }
    acc
}

/// The largest sample, zero when there is none.
pub open spec fn max_sample(s: Seq<usize>) -> usize
    decreases s.len(),
{
    if s.len() == 0 {
        0
    } else {
        let m = max_sample(s.drop_last());
        if s.last() > m {
            s.last()
        } else {
            m
        }
    }
}

/// The largest sample is at least every sample and is one of them (zero
/// when there is none).
pub proof fn lemma_max_sample_is_largest(s: Seq<usize>)
    ensures
        forall|i: int| 0 <= i < s.len() ==> s[i] <= max_sample(s),
        s.len() > 0 ==> s.contains(max_sample(s)),
        s.len() == 0 ==> max_sample(s) == 0,
    decreases s.len(),
{
    if s.len() > 0 {
        let d = s.drop_last();
        lemma_max_sample_is_largest(d);
        assert forall|i: int| 0 <= i < s.len() implies s[i] <= max_sample(s) by {
            if i < s.len() - 1 {
                assert(s[i] == d[i]);
            }
        }
        if s.last() > max_sample(d) {
            assert(s[s.len() - 1] == max_sample(s));
        } else if d.len() > 0 {
            let j = choose|j: int| 0 <= j < d.len() && d[j] == max_sample(d);
            assert(s[j] == max_sample(s));
        } else {
            assert(s[0] == s.last());
        }
    }
}

/// `v` is zero or at most one of the samples `a`.
pub open spec fn covered_by(a: Seq<usize>, v: usize) -> bool {
    v == 0 || exists|y: int| 0 <= y < a.len() && v <= #[trigger] a[y]
}

/// Sites ordered by largest sample, descending: for any two sites of the
/// order, every sample of the later one is zero or at most some sample of
/// the earlier one.
pub proof fn lemma_by_max_desc_order(m: Seq<DumpEntryView>)
    requires
        m.len() <= usize::MAX,
    ensures
        by_max_desc(m).len() == m.len(),
        forall|k: int, l: int, x: int|
            0 <= k < l < m.len() && 0 <= x < by_max_desc(m)[l].samples.len() ==> #[trigger] covered_by(
                by_max_desc(m)[k].samples,
                by_max_desc(m)[l].samples[x],
            ),
{
    let o = stable_order(max_keys(m), true, m.len());
    lemma_stable_order(max_keys(m), true, m.len());
    let out = by_max_desc(m);
    assert forall|k: int, l: int, x: int|
        0 <= k < l < m.len() && 0 <= x < by_max_desc(m)[l].samples.len() implies #[trigger] covered_by(
        by_max_desc(m)[k].samples,
        by_max_desc(m)[l].samples[x],
    ) by {
        let a = out[k].samples;
        let b = out[l].samples;
        assert(in_order(max_keys(m), true, o[k], o[l]));
        assert(o[k] < m.len() && o[l] < m.len());
        assert(max_sample(a) >= max_sample(b));
        lemma_max_sample_is_largest(a);
        lemma_max_sample_is_largest(b);
        assert(b[x] <= max_sample(b));
        if a.len() > 0 {
            let y = choose|y: int| 0 <= y < a.len() && a[y] == max_sample(a);
            assert(b[x] <= a[y]);
        }
    }
}

/// A site after reservoir sampling with cap `cap` (zero: unlimited).
pub open spec fn capped(e: DumpEntryView, cap: usize) -> DumpEntryView {
    if cap > 0 && e.samples.len() > cap {
        DumpEntryView {
            samples: reservoir_spec(e.samples, cap as nat, site_seed_spec(e.file, e.line, e.column)),
            ..e
        }
    } else {
        e
    }
}

/// What the reservoir does to a merged site: all its samples stay when the
/// cap is zero or not exceeded; otherwise exactly `cap` of them stay, no
/// sample more often than it occurs.  Name, location and count are kept.
pub proof fn lemma_capped_site(e: DumpEntryView, cap: usize)
    requires
        e.samples.len() <= u64::MAX,
    ensures
        (cap == 0 || e.samples.len() <= cap) ==> capped(e, cap) == e,
        cap > 0 && e.samples.len() > cap ==> capped(e, cap).samples.len() == cap && capped(
            e,
            cap,
        ).samples.to_multiset().subset_of(e.samples.to_multiset()),
        capped(e, cap).name == e.name && capped(e, cap).file == e.file && capped(e, cap).line == e.line
            && capped(e, cap).column == e.column && capped(e, cap).creation_count == e.creation_count,
{
    lemma_reservoir_sample(e.samples, cap as nat, site_seed_spec(e.file, e.line, e.column));
}

/// Every site after reservoir sampling.
pub open spec fn capped_all(m: Seq<DumpEntryView>, cap: usize) -> Seq<DumpEntryView> {
    Seq::new(m.len(), |k: int| capped(m[k], cap))
}

/// The largest sample of each site.
pub open spec fn max_keys(m: Seq<DumpEntryView>) -> Seq<usize> {
    Seq::new(m.len(), |k: int| max_sample(m[k].samples))
}

/// The sites by largest sample, descending; ties in their given order.
pub open spec fn by_max_desc(m: Seq<DumpEntryView>) -> Seq<DumpEntryView> {
    let o = stable_order(max_keys(m), true, m.len());
    Seq::new(m.len(), |k: int| m[o[k] as int])
}

/// A site as `merge_dumps` writes it (`out`), from the merged site `e`:
/// same name, location and count; all the samples when the cap is zero or
/// not exceeded, otherwise exactly `cap` of them, none kept more often
/// than it occurs.
pub open spec fn capped_ok(out: DumpEntryView, e: DumpEntryView, cap: usize) -> bool {
    &&& out.name == e.name
    &&& loc_of(out) == loc_of(e)
    &&& out.creation_count == e.creation_count
    &&& (cap == 0 || e.samples.len() <= cap) ==> out.samples == e.samples
    &&& cap > 0 && e.samples.len() > cap ==> out.samples.len() == cap && out.samples.to_multiset().subset_of(
        e.samples.to_multiset(),
    )
}

/// What a merge writes, site by site: as many sites as `m` merges, each at
/// a location seen, no location twice; each site is the merge of every
/// entry at its location
/// (first name, summed counts, samples concatenated in input order), cut
/// down by the reservoir as `capped_ok` says.
pub proof fn lemma_merge_output_sites(m: Seq<DumpEntryView>, all: Seq<DumpEntryView>, n: int, cap: usize)
    requires
        is_merge(m, all, n),
        m.len() <= usize::MAX,
        forall|j: int| 0 <= j < m.len() ==> (#[trigger] m[j]).samples.len() <= u64::MAX,
    ensures
        by_max_desc(capped_all(m, cap)).len() == m.len(),
        forall|k: int|
            0 <= k < m.len() ==> {
                let out = #[trigger] by_max_desc(capped_all(m, cap))[k];
                &&& seen(all, loc_of(out), n)
                &&& capped_ok(out, merged_at(all, loc_of(out), n), cap)
            },
        forall|k1: int, k2: int|
            0 <= k1 < k2 < m.len() ==> loc_of(#[trigger] by_max_desc(capped_all(m, cap))[k1]) != loc_of(
                #[trigger] by_max_desc(capped_all(m, cap))[k2],
            ),
{
    let c = capped_all(m, cap);
    let out = by_max_desc(c);
    let o = stable_order(max_keys(c), true, c.len());
    lemma_stable_order(max_keys(c), true, c.len());
    assert forall|k: int| 0 <= k < m.len() implies {
        let x = #[trigger] by_max_desc(capped_all(m, cap))[k];
        &&& seen(all, loc_of(x), n)
        &&& capped_ok(x, merged_at(all, loc_of(x), n), cap)
    } by {
        let j = o[k] as int;
        assert(0 <= j < m.len());
        assert(out[k] == capped(m[j], cap));
        lemma_capped_site(m[j], cap);
        assert(m[j] == merged_at(all, loc_of(m[j]), n));
        assert(seen(all, loc_of(m[j]), n));
    }
    assert forall|k1: int, k2: int| 0 <= k1 < k2 < m.len() implies loc_of(
        #[trigger] by_max_desc(capped_all(m, cap))[k1],
    ) != loc_of(#[trigger] by_max_desc(capped_all(m, cap))[k2]) by {
        let j1 = o[k1] as int;
        let j2 = o[k2] as int;
        assert(j1 != j2);
        assert(out[k1] == capped(m[j1], cap) && out[k2] == capped(m[j2], cap));
        lemma_capped_site(m[j1], cap);
        lemma_capped_site(m[j2], cap);
        if j1 < j2 {
            assert(loc_less(loc_of(m[j1]), loc_of(m[j2])));
            lemma_loc_less_irreflexive(loc_of(m[j1]));
        } else {
            assert(loc_less(loc_of(m[j2]), loc_of(m[j1])));
            lemma_loc_less_irreflexive(loc_of(m[j2]));
        }
    }
}

/// The number of samples of the first `n` sites, saturating at
/// `usize::MAX`.
pub open spec fn total_samples(m: Seq<DumpEntryView>, n: int) -> usize
    decreases n,
{
    if n <= 0 {
        0
    } else {
        let t = total_samples(m, n - 1);
        if t + m[n - 1].samples.len() > usize::MAX {
            usize::MAX
        } else {
            (t + m[n - 1].samples.len()) as usize
        }
    }
}

/// The largest sample.
pub fn max_sample_exec(s: &Vec<usize>) -> (r: usize)
    ensures
        r == max_sample(s@),
{
    let mut m: usize = 0;
    let mut i: usize = 0;
    while i < s.len()
        invariant
            i <= s.len(),
            m == max_sample(s@.take(i as int)),
        decreases s.len() - i,
    {
        assert(s@.take(i + 1).drop_last() =~= s@.take(i as int));
        if s[i] > m {
            m = s[i];
        }
        i = i + 1;
    }
    assert(s@.take(s.len() as int) =~= s@);
    m
}

/// Merge the sites of several profile dumps: deduplicate by location, cap
/// each site's samples by reservoir sampling (`reservoir_cap` zero:
/// unlimited), and order the sites by largest sample, descending (ties in
/// location order).  The report counts the inputs, the sites and the
/// samples before and after sampling (saturating).
pub fn merge_dumps(dumps: &Vec<Vec<DumpEntry>>, reservoir_cap: usize) -> (r: (
    Vec<DumpEntry>,
    MergeReport,
))
    ensures
        exists|m: Seq<DumpEntryView>|
            {
                &&& is_merge(
                    m,
                    flatten(dumps_views(dumps@)),
                    flatten(dumps_views(dumps@)).len() as int,
                )
                &&& dump_views(r.0@) == by_max_desc(capped_all(m, reservoir_cap))
                &&& r.1.unique_sites == m.len()
                &&& r.1.total_samples_pre_reservoir == total_samples(m, m.len() as int)
                &&& r.1.total_samples_post == total_samples(
                    capped_all(m, reservoir_cap),
                    m.len() as int,
                )
            },
        r.1.inputs_count == dumps.len(),
{
    let merged = merge_sites(dumps);
    let ghost m = dump_views(merged@);
    let n = merged.len();
    let mut capped_v: Vec<DumpEntry> = Vec::new();
    let mut pre: usize = 0;
    let mut post: usize = 0;
    let mut k: usize = 0;
    while k < n
        invariant
            k <= n == merged.len(),
            m == dump_views(merged@),
            dump_views(capped_v@) == capped_all(m, reservoir_cap).take(k as int),
            pre == total_samples(m, k as int),
            post == total_samples(capped_all(m, reservoir_cap), k as int),
        decreases n - k,
    {
        let e = &merged[k];
        assert(e@ == m[k as int]);
        let mut c = copy_entry(e);
        if reservoir_cap > 0 && e.samples.len() > reservoir_cap {
            let seed = site_seed(e.file.as_str(), e.line, e.column);
            c.samples = reservoir_sample(e.samples.as_slice(), reservoir_cap, &seed);
        }
        assert(c@ == capped(m[k as int], reservoir_cap));
        pre = pre.saturating_add(e.samples.len());
        post = post.saturating_add(c.samples.len());
        let ghost old = capped_v@;
        capped_v.push(c);
        assert(dump_views(capped_v@) =~= dump_views(old).push(c@));
        k = k + 1;
        assert(dump_views(capped_v@) =~= capped_all(m, reservoir_cap).take(k as int));
    }
    assert(capped_all(m, reservoir_cap).take(n as int) =~= capped_all(m, reservoir_cap));
    let ghost cm = capped_all(m, reservoir_cap);
    let mut keys: Vec<usize> = Vec::new();
    let mut j: usize = 0;
    while j < n
        invariant
            j <= n == capped_v.len(),
            dump_views(capped_v@) == cm,
            keys@ == max_keys(cm).take(j as int),
        decreases n - j,
    {
        assert(capped_v@[j as int]@ == cm[j as int]);
        keys.push(max_sample_exec(&capped_v[j].samples));
        j = j + 1;
        assert(keys@ =~= max_keys(cm).take(j as int));
    }
    assert(keys@ =~= max_keys(cm));
    let o = stable_order_exec(&keys, true);
    proof {
        lemma_stable_order(keys@, true, n as nat);
    }
    let mut out: Vec<DumpEntry> = Vec::new();
    let mut q: usize = 0;
    while q < n
        invariant
            q <= n == capped_v.len(),
            dump_views(capped_v@) == cm,
            o@ == stable_order(max_keys(cm), true, n as nat),
            o@.len() == n,
            forall|t: int| 0 <= t < n ==> #[trigger] o@[t] < n,
            dump_views(out@) == by_max_desc(cm).take(q as int),
        decreases n - q,
    {
        let idx = o[q];
        assert(capped_v@[idx as int]@ == cm[idx as int]);
        let ghost old = out@;
        let c = copy_entry(&capped_v[idx]);
        out.push(c);
        assert(dump_views(out@) =~= dump_views(old).push(c@));
        q = q + 1;
        assert(dump_views(out@) =~= by_max_desc(cm).take(q as int));
    }
    assert(by_max_desc(cm).take(n as int) =~= by_max_desc(cm));
    let report = MergeReport {
        inputs_count: dumps.len(),
        unique_sites: n,
        total_samples_pre_reservoir: pre,
        total_samples_post: post,
    };
    (out, report)
}

} // verus!
