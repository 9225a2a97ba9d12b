//! Capacity sample lists: sorting, sums and nearest-rank percentiles.
use vstd::prelude::*;

use vstd::relations::{sorted_by, total_ordering};

verus! {

broadcast use vstd::seq_lib::group_to_multiset_ensures;

/// The order samples are sorted by.
pub open spec fn sample_leq() -> spec_fn(usize, usize) -> bool {
    |a: usize, b: usize| a <= b
}

/// The samples in ascending order.
pub open spec fn sorted_spec(s: Seq<usize>) -> Seq<usize> {
    s.sort_by(sample_leq())
}

/// The sum of the samples.
pub open spec fn sum(s: Seq<usize>) -> nat
    decreases s.len(),
{
    if s.len() == 0 {
        0
    } else {
        sum(s.drop_last()) + s.last() as nat
    }
}

/// The sum of the squares of the samples.
pub open spec fn sum_sq(s: Seq<usize>) -> nat
    decreases s.len(),
{
    if s.len() == 0 {
        0
    } else {
        sum_sq(s.drop_last()) + (s.last() as nat) * (s.last() as nat)
    }
}

/// How many samples are zero.
pub open spec fn count_zeros(s: Seq<usize>) -> nat
    decreases s.len(),
{
    if s.len() == 0 {
        0
    } else {
        count_zeros(s.drop_last()) + if s.last() == 0 {
            1nat
        } else {
            0nat
        }
    }
}

/// The samples that are not zero, in order.
pub open spec fn nonzero(s: Seq<usize>) -> Seq<usize> {
    s.filter(is_nonzero())
}

/// A sample is not zero.
pub open spec fn is_nonzero() -> spec_fn(usize) -> bool {
    |x: usize| x > 0
}

/// The index of the nearest-rank `p`-th percentile among `n` sorted
/// samples: the `ceil(p·n/100)`-th, counted from 1 and clamped to
/// `[1, n]`.
pub open spec fn percentile_index(n: nat, p: nat) -> int {
    let rank = (p * n + 99) / 100;
    let i = if rank == 0 {
        0
    } else {
        rank - 1
    };
    if i > n - 1 {
        n - 1
    } else {
        i
    }
}

/// The nearest-rank `p`-th percentile of sorted samples.
pub open spec fn percentile_spec(sorted: Seq<usize>, p: nat) -> usize {
    sorted[percentile_index(sorted.len(), p)]
}

proof fn lemma_leq_total()
    ensures
        total_ordering(sample_leq()),
{
}

/// One step of `sum`.
pub open spec fn sum_step() -> spec_fn(nat, usize) -> nat {
    |acc: nat, x: usize| acc + x as nat
}

/// One step of `sum_sq`.
pub open spec fn sum_sq_step() -> spec_fn(nat, usize) -> nat {
    |acc: nat, x: usize| acc + (x as nat) * (x as nat)
}

/// One step of `count_zeros`.
pub open spec fn zero_step() -> spec_fn(nat, usize) -> nat {
    |acc: nat, x: usize| acc + if x == 0 { 1nat } else { 0nat }
}

proof fn lemma_folds(s: Seq<usize>)
    ensures
        sum(s) == s.fold_left(0nat, sum_step()),
        sum_sq(s) == s.fold_left(0nat, sum_sq_step()),
        count_zeros(s) == s.fold_left(0nat, zero_step()),
    decreases s.len(),
{
    if s.len() > 0 {
        lemma_folds(s.drop_last());
    }
}

/// The sums, the count of zeros and the sorted order of a list of samples
/// depend on which samples it holds, not on their order.
pub proof fn lemma_order_free(s: Seq<usize>, t: Seq<usize>)
    requires
        s.to_multiset() == t.to_multiset(),
    ensures
        s.len() == t.len(),
        sum(s) == sum(t),
        sum_sq(s) == sum_sq(t),
        count_zeros(s) == count_zeros(t),
        sorted_spec(s) == sorted_spec(t),
{
    assert(s.len() == s.to_multiset().len() && t.len() == t.to_multiset().len());
    lemma_folds(s);
    lemma_folds(t);
    assert(vstd::seq_lib::commutative_foldl(sum_step()));
    assert(vstd::seq_lib::commutative_foldl(sum_sq_step()));
    assert(vstd::seq_lib::commutative_foldl(zero_step()));
    vstd::seq_lib::lemma_fold_left_permutation(s, t, sum_step(), 0nat);
    vstd::seq_lib::lemma_fold_left_permutation(s, t, sum_sq_step(), 0nat);
    vstd::seq_lib::lemma_fold_left_permutation(s, t, zero_step(), 0nat);
    lemma_leq_total();
    s.lemma_sort_by_ensures(sample_leq());
    t.lemma_sort_by_ensures(sample_leq());
    vstd::seq_lib::lemma_sorted_unique(sorted_spec(s), sorted_spec(t), sample_leq());
}

/// A sorted copy of the samples.
pub fn sort_samples(s: &[usize]) -> (r: Vec<usize>)
    ensures
        r@ == sorted_spec(s@),
        r@.len() == s@.len(),
        sorted_by(r@, sample_leq()),
{
    let mut r: Vec<usize> = Vec::new();
    let mut i: usize = 0;
    while i < s.len()
        invariant
            i <= s.len(),
            sorted_by(r@, sample_leq()),
            r@.to_multiset() == s@.take(i as int).to_multiset(),
        decreases s.len() - i,
    {
        let x = s[i];
        let mut p: usize = 0;
        while p < r.len() && r[p] <= x
            invariant
                p <= r.len(),
                forall|k: int| 0 <= k < p ==> r@[k] <= x,
            decreases r.len() - p,
        {
            p = p + 1;
        }
        let ghost old = r@;
        r.insert(p, x);
        assert forall|a: int, b: int| 0 <= a < b < r@.len() implies #[trigger] (sample_leq())(
            r@[a],
            r@[b],
        ) by {
            if b < p {
                assert(r@[a] == old[a] && r@[b] == old[b]);
                assert((sample_leq())(old[a], old[b]));
            } else if b == p {
                assert(r@[a] == old[a]);
            } else if a < p {
                assert(r@[a] == old[a] && r@[b] == old[b - 1]);
                assert((sample_leq())(old[a], old[b - 1]));
            } else if a == p {
                assert(r@[b] == old[b - 1]);
                assert(old[p as int] > x);
                if b - 1 > p {
                    assert((sample_leq())(old[p as int], old[b - 1]));
                }
            } else {
                assert(r@[a] == old[a - 1] && r@[b] == old[b - 1]);
                assert((sample_leq())(old[a - 1], old[b - 1]));
            }
        }
        assert(s@.take(i + 1) =~= s@.take(i as int).push(x));
        i = i + 1;
    }
    proof {
        assert(s@.take(s.len() as int) =~= s@);
        lemma_leq_total();
        s@.lemma_sort_by_ensures(sample_leq());
        vstd::seq_lib::lemma_sorted_unique(r@, sorted_spec(s@), sample_leq());
        assert(r@.to_multiset().len() == s@.to_multiset().len());
    }
    r
}

/// The nearest-rank `p`-th percentile of sorted samples.
pub fn percentile(sorted: &[usize], p: u8) -> (r: usize)
    requires
        sorted.len() > 0,
    ensures
        r == percentile_spec(sorted@, p as nat),
{
    let n = sorted.len();
    assert((p as u128) * (n as u128) <= 0xff * 0xffff_ffff_ffff_ffffu128) by (nonlinear_arith)
        requires
            p <= 0xff,
            n <= 0xffff_ffff_ffff_ffffu128,
    ;
    let rank: u128 = ((p as u128) * (n as u128) + 99) / 100;
    let i: u128 = if rank == 0 {
        0
    } else {
        rank - 1
    };
    let idx: usize = if i > (n - 1) as u128 {
        n - 1
    } else {
        i as usize
    };
    sorted[idx]
}

/// The sum of the samples.
pub fn sum_exec(s: &[usize]) -> (r: u128)
    ensures
        r == sum(s@),
{
    let mut acc: u128 = 0;
    let mut i: usize = 0;
    while i < s.len()
        invariant
            i <= s.len(),
            acc == sum(s@.take(i as int)),
            acc <= i * 0xffff_ffff_ffff_ffffu128,
        decreases s.len() - i,
    {
        assert(s@.take(i + 1).drop_last() =~= s@.take(i as int));
        acc = acc + s[i] as u128;
        i = i + 1;
    }
    assert(s@.take(s.len() as int) =~= s@);
    acc
}

/// How many samples are zero.
pub fn count_zeros_exec(s: &[usize]) -> (r: usize)
    ensures
        r == count_zeros(s@),
{
    let mut c: usize = 0;
    let mut i: usize = 0;
    while i < s.len()
        invariant
            i <= s.len(),
            c == count_zeros(s@.take(i as int)),
            c <= i,
        decreases s.len() - i,
    {
        assert(s@.take(i + 1).drop_last() =~= s@.take(i as int));
        if s[i] == 0 {
            c = c + 1;
        }
        i = i + 1;
    }
    assert(s@.take(s.len() as int) =~= s@);
    c
}

/// The samples that are not zero, in order.
pub fn nonzero_exec(s: &[usize]) -> (r: Vec<usize>)
    ensures
        r@ == nonzero(s@),
{
    let mut r: Vec<usize> = Vec::new();
    let mut i: usize = 0;
    while i < s.len()
        invariant
            i <= s.len(),
            r@ == nonzero(s@.take(i as int)),
        decreases s.len() - i,
    {
        let ghost t = s@.take(i + 1);
        assert(t.drop_last() =~= s@.take(i as int));
        assert(t.last() == s@[i as int]);
        reveal(Seq::filter);
        assert(t.filter(is_nonzero()) == if (is_nonzero())(t.last()) {
            t.drop_last().filter(is_nonzero()).push(t.last())
        } else {
            t.drop_last().filter(is_nonzero())
        });
        if s[i] > 0 {
            r.push(s[i]);
        }
        i = i + 1;
    }
    assert(s@.take(s.len() as int) =~= s@);
    r
}

/// A copy of a sample list.
pub fn copy_samples(v: &Vec<usize>) -> (r: Vec<usize>)
    ensures
        r@ == v@,
{
    let mut r: Vec<usize> = Vec::new();
    let mut i: usize = 0;
    while i < v.len()
        invariant
            i <= v.len(),
            r@ == v@.take(i as int),
        decreases v.len() - i,
    {
        r.push(v[i]);
        i = i + 1;
        assert(r@ =~= v@.take(i as int));
    }
    assert(v@.take(v.len() as int) =~= v@);
    r
}

} // verus!
