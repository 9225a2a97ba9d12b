//! Stable ordering of positions by a `usize` key.
//!
//! The patcher sorts splices by byte offset (descending to apply, ascending
//! to record) with a stable sort; `stable_order` is that sort as a
//! permutation of indices, defined as insertion in index order.
use vstd::prelude::*;

verus! {

/// With `desc`, `keys[a]` may stand before `keys[b]` when it is not below
/// it; ascending, when it is not above it.
pub open spec fn in_order(keys: Seq<usize>, desc: bool, a: usize, b: usize) -> bool {
    if desc {
        keys[a as int] >= keys[b as int]
    } else {
        keys[a as int] <= keys[b as int]
    }
}

/// Strict form of `in_order`.
pub open spec fn strictly_in_order(keys: Seq<usize>, desc: bool, a: int, b: int) -> bool {
    if desc {
        keys[a] > keys[b]
    } else {
        keys[a] < keys[b]
    }
}

/// Where index `x` is inserted into the sorted `o`: after every element
/// that may stand before it.
pub open spec fn ins_pos(o: Seq<usize>, x: usize, keys: Seq<usize>, desc: bool) -> int
    decreases o.len(),
{
    if o.len() == 0 {
        0
    } else if in_order(keys, desc, o[0], x) {
        1 + ins_pos(o.drop_first(), x, keys, desc)
    } else {
        0
    }
}

/// The stable sort of the indices `0..n` by `keys`.
pub open spec fn stable_order(keys: Seq<usize>, desc: bool, n: nat) -> Seq<usize>
    decreases n,
{
    if n == 0 {
        seq![]
    } else {
        let o = stable_order(keys, desc, (n - 1) as nat);
        o.insert(ins_pos(o, (n - 1) as usize, keys, desc), (n - 1) as usize)
    }
}

/// `o` is ordered by `keys`.
pub open spec fn sorted_by(o: Seq<usize>, keys: Seq<usize>, desc: bool) -> bool {
    forall|k: int, l: int| 0 <= k < l < o.len() ==> #[trigger] in_order(keys, desc, o[k], o[l])
}

/// `o` holds distinct indices below `n`.
pub open spec fn distinct_below(o: Seq<usize>, n: nat) -> bool {
    &&& forall|k: int| 0 <= k < o.len() ==> #[trigger] o[k] < n
    &&& forall|k: int, l: int| 0 <= k < l < o.len() ==> #[trigger] o[k] != #[trigger] o[l]
}

proof fn lemma_ins_pos(o: Seq<usize>, x: usize, keys: Seq<usize>, desc: bool)
    ensures
        0 <= ins_pos(o, x, keys, desc) <= o.len(),
        forall|k: int| 0 <= k < ins_pos(o, x, keys, desc) ==> #[trigger] in_order(keys, desc, o[k], x),
        ins_pos(o, x, keys, desc) < o.len() ==> !in_order(keys, desc, o[ins_pos(o, x, keys, desc)], x),
    decreases o.len(),
{
    if o.len() > 0 && in_order(keys, desc, o[0], x) {
        lemma_ins_pos(o.drop_first(), x, keys, desc);
        assert forall|k: int| 0 <= k < ins_pos(o, x, keys, desc) implies #[trigger] in_order(
            keys,
            desc,
            o[k],
            x,
        ) by {
            if k > 0 {
                assert(o[k] == o.drop_first()[k - 1]);
            }
        }
    }
}

/// The stable order is a sorted arrangement of distinct indices below `n`.
pub proof fn lemma_stable_order(keys: Seq<usize>, desc: bool, n: nat)
    requires
        n <= keys.len() <= usize::MAX,
    ensures
        stable_order(keys, desc, n).len() == n,
        distinct_below(stable_order(keys, desc, n), n),
        sorted_by(stable_order(keys, desc, n), keys, desc),
    decreases n,
{
    if n > 0 {
        let m = (n - 1) as nat;
        lemma_stable_order(keys, desc, m);
        let o = stable_order(keys, desc, m);
        let x = m as usize;
        let p = ins_pos(o, x, keys, desc);
        lemma_ins_pos(o, x, keys, desc);
        let r = o.insert(p, x);
        assert(r == stable_order(keys, desc, n));
        assert forall|k: int| 0 <= k < r.len() implies #[trigger] r[k] < n by {
            if k < p {
                assert(r[k] == o[k]);
            } else if k > p {
                assert(r[k] == o[k - 1]);
            }
        }
        assert forall|k: int, l: int| 0 <= k < l < r.len() implies #[trigger] r[k] != #[trigger] r[l] by {
            if l < p {
                assert(r[k] == o[k] && r[l] == o[l]);
            } else if l == p {
                assert(r[k] == o[k]);
                assert(o[k] < m);
            } else if k < p {
                assert(r[k] == o[k] && r[l] == o[l - 1]);
                if k < l - 1 {
                    assert(o[k] != o[l - 1]);
                }
            } else if k == p {
                assert(r[l] == o[l - 1]);
                assert(o[l - 1] < m);
            } else {
                assert(r[k] == o[k - 1] && r[l] == o[l - 1]);
                assert(o[k - 1] != o[l - 1]);
            }
        }
        assert forall|k: int, l: int| 0 <= k < l < r.len() implies #[trigger] in_order(
            keys,
            desc,
            r[k],
            r[l],
        ) by {
            if l < p {
                assert(r[k] == o[k] && r[l] == o[l]);
            } else if l == p {
                assert(r[k] == o[k]);
            } else if k < p {
                assert(r[k] == o[k] && r[l] == o[l - 1]);
                assert(in_order(keys, desc, o[k], o[l - 1]));
            } else if k == p {
                assert(r[l] == o[l - 1]);
                assert(!in_order(keys, desc, o[p], x));
                if l - 1 > p {
                    assert(in_order(keys, desc, o[p], o[l - 1]));
                }
            } else {
                assert(r[k] == o[k - 1] && r[l] == o[l - 1]);
            }
        }
    }
}

/// Keys already strictly in order give the identity order.
pub proof fn lemma_stable_order_identity(keys: Seq<usize>, desc: bool, n: nat)
    requires
        n <= keys.len() <= usize::MAX,
        forall|i: int, j: int| 0 <= i < j < n ==> #[trigger] strictly_in_order(keys, desc, i, j),
    ensures
        stable_order(keys, desc, n) == Seq::new(n, |i: int| i as usize),
    decreases n,
{
    if n > 0 {
        let m = (n - 1) as nat;
        lemma_stable_order_identity(keys, desc, m);
        lemma_stable_order(keys, desc, m);
        let o = stable_order(keys, desc, m);
        let x = m as usize;
        lemma_ins_pos(o, x, keys, desc);
        if ins_pos(o, x, keys, desc) < o.len() {
            let p = ins_pos(o, x, keys, desc);
            assert(o[p] == p as usize);
            assert(strictly_in_order(keys, desc, p, m as int));
        }
        assert(o.insert(m as int, x) =~= Seq::new(n, |i: int| i as usize));
    }
}

/// Keys strictly against the order give the reversed order.
pub proof fn lemma_stable_order_reverse(keys: Seq<usize>, desc: bool, n: nat)
    requires
        n <= keys.len() <= usize::MAX,
        forall|i: int, j: int| 0 <= i < j < n ==> #[trigger] strictly_in_order(keys, desc, j, i),
    ensures
        stable_order(keys, desc, n) == Seq::new(n, |i: int| (n - 1 - i) as usize),
    decreases n,
{
    if n > 0 {
        let m = (n - 1) as nat;
        lemma_stable_order_reverse(keys, desc, m);
        let o = stable_order(keys, desc, m);
        let x = m as usize;
        if o.len() > 0 {
            assert(o[0] == (m - 1) as usize);
            assert(strictly_in_order(keys, desc, m as int, m - 1));
            assert(ins_pos(o, x, keys, desc) == 0);
        }
        assert(o.insert(0, x) =~= Seq::new(n, |i: int| (n - 1 - i) as usize));
    }
}

fn in_order_exec(keys: &Vec<usize>, desc: bool, a: usize, b: usize) -> (r: bool)
    requires
        a < keys.len(),
        b < keys.len(),
    ensures
        r == in_order(keys@, desc, a, b),
{
    if desc {
        keys[a] >= keys[b]
    } else {
        keys[a] <= keys[b]
    }
}

/// The stable order of the indices of `keys`; descending when `desc`.
pub fn stable_order_exec(keys: &Vec<usize>, desc: bool) -> (o: Vec<usize>)
    ensures
        o@ == stable_order(keys@, desc, keys.len() as nat),
{
    let mut o: Vec<usize> = Vec::new();
    let mut i: usize = 0;
    while i < keys.len()
        invariant
            i <= keys.len(),
            o@ == stable_order(keys@, desc, i as nat),
        decreases keys.len() - i,
    {
        proof {
            lemma_stable_order(keys@, desc, i as nat);
        }
        let mut p: usize = 0;
        assert(o@.skip(0) =~= o@);
        while p < o.len() && in_order_exec(keys, desc, o[p], i)
            invariant
                p <= o.len(),
                i < keys.len(),
                distinct_below(o@, i as nat),
                ins_pos(o@, i, keys@, desc) == p + ins_pos(o@.skip(p as int), i, keys@, desc),
            decreases o.len() - p,
        {
            assert(o@.skip(p as int).drop_first() =~= o@.skip(p + 1));
            p = p + 1;
        }
        assert(ins_pos(o@.skip(p as int), i, keys@, desc) == 0);
        o.insert(p, i);
        i = i + 1;
    }
    o
}

} // verus!
