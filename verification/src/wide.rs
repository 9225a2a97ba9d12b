//! Unsigned integers of any width as little-endian `u64` limbs.
//!
//! The distribution classifier decides on sums of squares of samples;
//! these exceed 128 bits, so they are computed here, exactly.
use vstd::prelude::*;

verus! {

/// The limb base, 2^64.
pub open spec fn limb_base() -> nat {
    0x1_0000_0000_0000_0000
}

/// The base raised to `k`.
pub open spec fn base_pow(k: nat) -> nat
    decreases k,
{
    if k == 0 {
        1
    } else {
        limb_base() * base_pow((k - 1) as nat)
    }
}

/// Limb `i`, zero past the end.
pub open spec fn limb(s: Seq<u64>, i: int) -> nat {
    if 0 <= i < s.len() {
        s[i] as nat
    } else {
        0
    }
}

/// The value of the lowest `n` limbs.
pub open spec fn value_to(s: Seq<u64>, n: nat) -> nat
    decreases n,
{
    if n == 0 {
        0
    } else {
        value_to(s, (n - 1) as nat) + limb(s, n - 1) * base_pow((n - 1) as nat)
    }
}

/// The value of a limb sequence.
pub open spec fn value(s: Seq<u64>) -> nat {
    value_to(s, s.len())
}

proof fn lemma_base_pow_positive(k: nat)
    ensures
        base_pow(k) >= 1,
    decreases k,
{
    if k > 0 {
        lemma_base_pow_positive((k - 1) as nat);
        assert(limb_base() * base_pow((k - 1) as nat) >= 1) by (nonlinear_arith)
            requires
                base_pow((k - 1) as nat) >= 1,
                limb_base() == 0x1_0000_0000_0000_0000nat,
        ;
    }
}

/// The lowest `n` limbs are below the base raised to `n`.
proof fn lemma_value_to_bound(s: Seq<u64>, n: nat)
    ensures
        value_to(s, n) < base_pow(n),
    decreases n,
{
    if n > 0 {
        let k = (n - 1) as nat;
        lemma_value_to_bound(s, k);
        let l = limb(s, k as int);
        let p = base_pow(k);
        assert(l <= 0xffff_ffff_ffff_ffff);
        assert(value_to(s, k) + l * p < limb_base() * p) by (nonlinear_arith)
            requires
                value_to(s, k) < p,
                l <= 0xffff_ffff_ffff_ffffnat,
                limb_base() == 0x1_0000_0000_0000_0000nat,
        ;
    }
}

/// Limbs past the end add nothing.
proof fn lemma_value_to_past_end(s: Seq<u64>, n: nat)
    requires
        n >= s.len(),
    ensures
        value_to(s, n) == value(s),
    decreases n,
{
    if n > s.len() {
        lemma_value_to_past_end(s, (n - 1) as nat);
        assert(limb(s, n - 1) == 0);
        assert(limb(s, n - 1) * base_pow((n - 1) as nat) == 0) by (nonlinear_arith)
            requires
                limb(s, n - 1) == 0,
        ;
    }
}

/// Sequences that agree on their lowest `n` limbs agree on their value there.
proof fn lemma_value_to_prefix(s: Seq<u64>, t: Seq<u64>, n: nat)
    requires
        forall|i: int| 0 <= i < n ==> limb(s, i) == limb(t, i),
    ensures
        value_to(s, n) == value_to(t, n),
    decreases n,
{
    if n > 0 {
        lemma_value_to_prefix(s, t, (n - 1) as nat);
        assert(limb(s, n - 1) == limb(t, n - 1));
    }
}

/// One limb of `x`.
pub fn from_u64(x: u64) -> (r: Vec<u64>)
    ensures
        value(r@) == x,
{
    let r = vec![x];
    assert(value_to(r@, 0) == 0);
    assert(base_pow(0) == 1);
    assert(limb(r@, 0) == x);
    assert(limb(r@, 0) * base_pow(0) == x) by (nonlinear_arith)
        requires
            limb(r@, 0) == x,
            base_pow(0) == 1,
    ;
    assert(value(r@) == value_to(r@, 1));
    r
}

/// Two limbs of `x`.
pub fn from_u128(x: u128) -> (r: Vec<u64>)
    ensures
        value(r@) == x,
{
    let lo = (x % 0x1_0000_0000_0000_0000u128) as u64;
    let hi = (x / 0x1_0000_0000_0000_0000u128) as u64;
    let r = vec![lo, hi];
    assert(value(r@) == lo + hi * limb_base()) by {
        assert(value_to(r@, 0) == 0);
        assert(base_pow(0) == 1);
        assert(limb(r@, 0) == lo && limb(r@, 1) == hi);
        assert(limb(r@, 0) * base_pow(0) == lo) by (nonlinear_arith)
            requires
                limb(r@, 0) == lo,
                base_pow(0) == 1,
        ;
        assert(value_to(r@, 1) == lo);
        assert(base_pow(1) == limb_base()) by {
            assert(base_pow(1) == limb_base() * base_pow(0));
        }
        assert(value(r@) == value_to(r@, 2));
    }
    assert(lo + hi * limb_base() == x) by (nonlinear_arith)
        requires
            lo == x % 0x1_0000_0000_0000_0000u128,
            hi == x / 0x1_0000_0000_0000_0000u128,
            limb_base() == 0x1_0000_0000_0000_0000nat,
    ;
    r
}

proof fn lemma_carry_step(vt: nat, ot: nat, c: nat, p: nat, a: nat, m: nat, t: nat, lo: nat, hi: nat)
    requires
        ot + c * p == vt * m,
        t == a * m + c,
        lo == t % 0x1_0000_0000_0000_0000,
        hi == t / 0x1_0000_0000_0000_0000,
    ensures
        (ot + lo * p) + hi * (0x1_0000_0000_0000_0000 * p) == (vt + a * p) * m,
{
    assert(lo + hi * 0x1_0000_0000_0000_0000 == t) by (nonlinear_arith)
        requires
            lo == t % 0x1_0000_0000_0000_0000,
            hi == t / 0x1_0000_0000_0000_0000,
    ;
    assert((ot + lo * p) + hi * (0x1_0000_0000_0000_0000 * p) == ot + (lo + hi
        * 0x1_0000_0000_0000_0000) * p) by (nonlinear_arith);
    assert(ot + t * p == (vt + a * p) * m) by (nonlinear_arith)
        requires
            ot + c * p == vt * m,
            t == a * m + c,
    ;
}

/// `v × m`.
pub fn mul_small(v: &Vec<u64>, m: u64) -> (r: Vec<u64>)
    ensures
        value(r@) == value(v@) * m,
{
    let mut out: Vec<u64> = Vec::new();
    let mut carry: u64 = 0;
    let mut i: usize = 0;
    assert(value(out@) == 0 && value_to(v@, 0) == 0);
    assert(0 * base_pow(0) == 0 && 0 * (m as nat) == 0) by (nonlinear_arith);
    while i < v.len()
        invariant
            i <= v.len(),
            out@.len() == i,
            value(out@) + carry * base_pow(i as nat) == value_to(v@, i as nat) * m,
        decreases v.len() - i,
    {
        let a: u64 = v[i];
        assert((a as u128) * (m as u128) <= 0xffff_ffff_ffff_fffe_0000_0000_0000_0001u128) by (nonlinear_arith)
            requires
                a <= 0xffff_ffff_ffff_ffffu64,
                m <= 0xffff_ffff_ffff_ffffu64,
        ;
        let t: u128 = (a as u128) * (m as u128) + (carry as u128);
        let lo = (t % 0x1_0000_0000_0000_0000u128) as u64;
        let hi = (t / 0x1_0000_0000_0000_0000u128) as u64;
        let ghost old_out = out@;
        out.push(lo);
        proof {
            let p = base_pow(i as nat);
            assert(limb(v@, i as int) == v@[i as int]);
            lemma_value_to_prefix(out@, old_out, i as nat);
            assert(value(out@) == value(old_out) + lo * p);
            lemma_carry_step(
                value_to(v@, i as nat),
                value(old_out),
                carry as nat,
                p,
                v@[i as int] as nat,
                m as nat,
                t as nat,
                lo as nat,
                hi as nat,
            );
            assert(base_pow((i + 1) as nat) == 0x1_0000_0000_0000_0000 * p);
        }
        carry = hi;
        i = i + 1;
    }
    let ghost old_out = out@;
    out.push(carry);
    proof {
        lemma_value_to_prefix(out@, old_out, v.len() as nat);
        assert(value(out@) == value(old_out) + carry * base_pow(v.len() as nat));
        lemma_value_to_past_end(v@, v.len() as nat);
    }
    out
}

/// `a + b`.
pub fn add_limbs(a: &Vec<u64>, b: &Vec<u64>) -> (r: Vec<u64>)
    ensures
        value(r@) == value(a@) + value(b@),
{
    let n = if a.len() >= b.len() {
        a.len()
    } else {
        b.len()
    };
    let mut out: Vec<u64> = Vec::new();
    let mut carry: u64 = 0;
    let mut i: usize = 0;
    assert(value(out@) == 0 && value_to(a@, 0) == 0 && value_to(b@, 0) == 0);
    assert(0 * base_pow(0) == 0) by (nonlinear_arith);
    while i < n
        invariant
            i <= n,
            n >= a.len(),
            n >= b.len(),
            out@.len() == i,
            carry <= 1,
            value(out@) + carry * base_pow(i as nat) == value_to(a@, i as nat) + value_to(
                b@,
                i as nat,
            ),
        decreases n - i,
    {
        let x: u64 = if i < a.len() {
            a[i]
        } else {
            0
        };
        let y: u64 = if i < b.len() {
            b[i]
        } else {
            0
        };
        assert(x == limb(a@, i as int) && y == limb(b@, i as int));
        let t: u128 = (x as u128) + (y as u128) + (carry as u128);
        let lo = (t % 0x1_0000_0000_0000_0000u128) as u64;
        let hi = (t / 0x1_0000_0000_0000_0000u128) as u64;
        let ghost old_out = out@;
        out.push(lo);
        proof {
            let p = base_pow(i as nat);
            lemma_value_to_prefix(out@, old_out, i as nat);
            assert(value(out@) == value(old_out) + lo * p);
            assert(lo + hi * 0x1_0000_0000_0000_0000 == t) by (nonlinear_arith)
                requires
                    lo == t % 0x1_0000_0000_0000_0000,
                    hi == t / 0x1_0000_0000_0000_0000,
            ;
            assert(base_pow((i + 1) as nat) == 0x1_0000_0000_0000_0000 * p);
            assert((value(old_out) + lo * p) + hi * (0x1_0000_0000_0000_0000 * p) == value(old_out)
                + (lo + hi * 0x1_0000_0000_0000_0000) * p) by (nonlinear_arith);
            assert((x + y + carry) * p == x * p + y * p + carry * p) by (nonlinear_arith);
        }
        carry = hi;
        i = i + 1;
    }
    let ghost old_out = out@;
    out.push(carry);
    proof {
        lemma_value_to_prefix(out@, old_out, n as nat);
        assert(value(out@) == value(old_out) + carry * base_pow(n as nat));
        lemma_value_to_past_end(a@, n as nat);
        lemma_value_to_past_end(b@, n as nat);
    }
    out
}

/// `v × 2^64`: one zero limb below `v`.
pub fn shift_limb(v: &Vec<u64>) -> (r: Vec<u64>)
    ensures
        value(r@) == value(v@) * limb_base(),
{
    let mut out: Vec<u64> = vec![0];
    let mut i: usize = 0;
    while i < v.len()
        invariant
            i <= v.len(),
            out@.len() == i + 1,
            out@[0] == 0,
            forall|k: int| 0 <= k < i ==> out@[k + 1] == v@[k],
        decreases v.len() - i,
    {
        out.push(v[i]);
        i = i + 1;
    }
    proof {
        lemma_shift_value(out@, v@, v.len() as nat);
    }
    out
}

proof fn lemma_shift_value(out: Seq<u64>, v: Seq<u64>, n: nat)
    requires
        out.len() == v.len() + 1,
        out[0] == 0,
        forall|k: int| 0 <= k < v.len() ==> out[k + 1] == v[k],
        n <= v.len(),
    ensures
        value_to(out, n + 1) == value_to(v, n) * limb_base(),
    decreases n,
{
    if n == 0 {
        assert(value_to(out, 0) == 0);
        assert(limb(out, 0) == 0);
        assert(limb(out, 0) * base_pow(0) == 0) by (nonlinear_arith)
            requires
                limb(out, 0) == 0,
        ;
        assert(value_to(out, 1) == 0);
        assert(value_to(v, 0) == 0);
        assert(0 * limb_base() == 0);
    } else {
        let k = (n - 1) as nat;
        lemma_shift_value(out, v, k);
        assert(limb(out, n as int) == limb(v, k as int));
        assert(base_pow(n) == limb_base() * base_pow(k));
        assert(value_to(out, n + 1) == value_to(out, n) + limb(out, n as int) * base_pow(n));
        assert((value_to(v, k) + limb(v, k as int) * base_pow(k)) * limb_base() == value_to(v, k)
            * limb_base() + limb(v, k as int) * (limb_base() * base_pow(k))) by (nonlinear_arith);
    }
}

/// `value(a) < value(b)`.
pub fn less(a: &Vec<u64>, b: &Vec<u64>) -> (r: bool)
    ensures
        r == (value(a@) < value(b@)),
{
    let n = if a.len() >= b.len() {
        a.len()
    } else {
        b.len()
    };
    proof {
        lemma_value_to_past_end(a@, n as nat);
        lemma_value_to_past_end(b@, n as nat);
    }
    let mut i: usize = n;
    while i > 0
        invariant
            i <= n,
            n >= a.len(),
            n >= b.len(),
            value(a@) - value_to(a@, i as nat) == value(b@) - value_to(b@, i as nat),
            value(a@) == value_to(a@, n as nat),
            value(b@) == value_to(b@, n as nat),
        decreases i,
    {
        let x: u64 = if i - 1 < a.len() {
            a[i - 1]
        } else {
            0
        };
        let y: u64 = if i - 1 < b.len() {
            b[i - 1]
        } else {
            0
        };
        let ghost k = (i - 1) as nat;
        assert(x == limb(a@, k as int) && y == limb(b@, k as int));
        if x != y {
            proof {
                let p = base_pow(k);
                lemma_value_to_bound(a@, k);
                lemma_value_to_bound(b@, k);
                assert(value_to(a@, i as nat) == value_to(a@, k) + x * p);
                assert(value_to(b@, i as nat) == value_to(b@, k) + y * p);
                if x < y {
                    assert(value_to(a@, k) + x * p < value_to(b@, k) + y * p) by (nonlinear_arith)
                        requires
                            value_to(a@, k) < p,
                            x < y,
                    ;
                } else {
                    assert(value_to(b@, k) + y * p < value_to(a@, k) + x * p) by (nonlinear_arith)
                        requires
                            value_to(b@, k) < p,
                            y < x,
                    ;
                }
            }
            return x < y;
        }
        i = i - 1;
    }
    false
}

} // verus!
