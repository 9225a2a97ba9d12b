//! Patch-decision rules.
//!
//! `propose_cap(stats, current)` takes the profile statistics for one site
//! and the site's current capacity expression and returns either a
//! `Patch { to, reason }` or a `Skip { reason }`.
//!
//! Rule precedence (first match wins):
//!
//! 1. `count < min_count` → Skip "low frequency, not statistically sound"
//! 2. `peak == 0` → Skip "phantom site (no allocation observed)"
//! 3. `current` is Dynamic → Skip "dynamic cap expression (manual review)"
//! 4. `current` is `Literal(N)` with `N >= peak` → Skip "current cap already sufficient"
//! 5. `current` is `Zero` (or `Literal(0)`) and `peak >= 4` → Patch(round(p95))
//! 6. `current` is `Literal(c > 0)` and `peak >= growth_factor * c` → Patch(round(p95))
//! 7. otherwise → Skip "variation within normal bounds"
use vstd::prelude::*;

use crate::model::{CapExpr, SiteStats, Unit};
use crate::text::{dec, push_dec, push_str, string_of};

verus! {

/// Minimum count for a site to be considered statistically meaningful.
pub const DEFAULT_MIN_COUNT: u64 = 10;

/// Growth factor: only patch if the observed peak is at least this many
/// times the current cap (rule 6).
pub const DEFAULT_GROWTH_FACTOR: usize = 4;

/// Cap-rounding strategy.
#[derive(Debug, Clone, Copy, PartialEq, Eq)]
pub enum Rounding {
    /// Round up to the next power of two (default).
    NextPow2,
    /// Round up to the next multiple of 8.
    To8,
    /// Use the exact value.
    Exact,
}

impl Default for Rounding {
    fn default() -> (r: Self)
        ensures
            r == Rounding::NextPow2,
    {
        Rounding::NextPow2
    }
}

/// Decision the rules engine made for one `(stats, current)` pair.
#[derive(Debug, Clone, PartialEq, Eq)]
pub enum Decision {
    Patch { to: usize, reason: String },
    Skip { reason: String },
}

/// The mathematical value of a `Decision`.
pub enum DecisionView {
    Patch { to: usize, reason: Seq<char> },
    Skip { reason: Seq<char> },
}

impl View for Decision {
    type V = DecisionView;

    open spec fn view(&self) -> DecisionView {
        match self {
            Decision::Patch { to, reason } => DecisionView::Patch { to: *to, reason: reason@ },
            Decision::Skip { reason } => DecisionView::Skip { reason: reason@ },
        }
    }
}

/// Configurable thresholds.
#[derive(Debug, Clone, Copy)]
pub struct RuleConfig {
    pub min_count: u64,
    pub growth_factor: usize,
    pub rounding: Rounding,
}

impl Default for RuleConfig {
    fn default() -> (r: Self)
        ensures
            r.min_count == DEFAULT_MIN_COUNT,
            r.growth_factor == DEFAULT_GROWTH_FACTOR,
            r.rounding == Rounding::NextPow2,
    {
        RuleConfig {
            min_count: DEFAULT_MIN_COUNT,
            growth_factor: DEFAULT_GROWTH_FACTOR,
            rounding: Rounding::NextPow2,
        }
    }
}

// ───────────────────────────── powers of two ───────────────────────────

/// `p` is a power of two.
pub open spec fn is_pow2(p: nat) -> bool
    decreases p,
{
    p == 1 || (p >= 2 && p % 2 == 0 && is_pow2(p / 2))
}

/// Between two powers of two, the larger is at least twice the smaller.
pub proof fn lemma_pow2_gap(a: nat, b: nat)
    requires
        is_pow2(a),
        is_pow2(b),
        a < b,
    ensures
        2 * a <= b,
    decreases a,
{
    if a == 1 {
        assert(b >= 2);
    } else {
        lemma_pow2_gap(a / 2, b / 2);
    }
}

/// `n` rounded up to the least power of two that is at least `n`
/// (`n` itself for `n <= 1`), or `usize::MAX` when that power does not fit.
pub open spec fn next_pow2_spec(n: usize, r: usize) -> bool {
    if n <= 1 {
        r == n
    } else {
        (is_pow2(r as nat) && r >= n && r / 2 < n) || (r == usize::MAX && forall|p: nat|
            is_pow2(p) && p <= usize::MAX ==> p < n)
    }
}

/// `checked_next_power_of_two().unwrap_or(usize::MAX)` for `n > 1`, and
/// `n` itself for `n <= 1`.
pub fn next_pow2_saturating(n: usize) -> (r: usize)
    ensures
        next_pow2_spec(n, r),
{
    if n <= 1 {
        return n;
    }
    let mut p: usize = 1;
    while p < n
        invariant
            is_pow2(p as nat),
            p >= 1,
            p == 1 || p / 2 < n,
            n > 1,
        decreases usize::MAX - p,
    {
        if p > usize::MAX / 2 {
            proof {
                assert forall|q: nat| is_pow2(q) && q <= usize::MAX implies q < n by {
                    if q > p {
                        lemma_pow2_gap(p as nat, q);
                    }
                }
            }
            return usize::MAX;
        }
        assert(is_pow2((p * 2) as nat)) by {
            assert((p * 2) as nat / 2 == p as nat);
        }
        p = p * 2;
    }
    p
}

/// `n` rounded up to a multiple of 8, saturating at `usize::MAX`.
pub open spec fn round_to8_spec(n: usize) -> usize {
    if n == 0 {
        0
    } else {
        let m = (n + 7) / 8 * 8;
        if m > usize::MAX {
            usize::MAX
        } else {
            m as usize
        }
    }
}

/// The value `apply_rounding` produces.
pub open spec fn rounding_ok(n: usize, mode: Rounding, r: usize) -> bool {
    match mode {
        Rounding::Exact => r == n,
        Rounding::To8 => r == round_to8_spec(n),
        Rounding::NextPow2 => next_pow2_spec(n, r),
    }
}

proof fn lemma_multiple_of_8(q: int)
    requires
        q >= 0,
    ensures
        (q * 8 + 7) / 8 * 8 == q * 8,
{
    assert((q * 8 + 7) / 8 == q) by (nonlinear_arith)
        requires
            q >= 0,
    ;
}

proof fn lemma_max_not_pow2()
    ensures
        !is_pow2(usize::MAX as nat),
        usize::MAX > 1,
        usize::MAX % 8 == 7,
{
    assert(usize::MAX == 0xffff_ffff || usize::MAX == 0xffff_ffff_ffff_ffff);
    assert(usize::MAX % 2 == 1);
}

/// Rounding is idempotent: rounding a rounded size again, in the same
/// mode, leaves it as it is (a saturated `usize::MAX` included).
pub proof fn lemma_rounding_idempotent(n: usize, mode: Rounding, r: usize, r2: usize)
    requires
        rounding_ok(n, mode, r),
        rounding_ok(r, mode, r2),
    ensures
        r2 == r,
{
    lemma_max_not_pow2();
    match mode {
        Rounding::Exact => {},
        Rounding::To8 => {
            if n != 0 {
                let q: int = (n + 7) / 8;
                if q * 8 <= usize::MAX {
                    assert(r == q * 8);
                    assert(r != 0) by (nonlinear_arith)
                        requires
                            n > 0,
                            q == (n + 7) / 8,
                            r == q * 8,
                    ;
                    lemma_multiple_of_8(q);
                } else {
                    assert(r == usize::MAX);
                    let q2: int = (usize::MAX + 7) / 8;
                    assert(q2 * 8 > usize::MAX) by (nonlinear_arith)
                        requires
                            q2 == (usize::MAX + 7) / 8,
                            usize::MAX % 8 != 0,
                    {
                    }
                }
            }
        },
        Rounding::NextPow2 => {
            if n > 1 {
                if is_pow2(r as nat) && r >= n && r / 2 < n {
                    if is_pow2(r2 as nat) && r2 >= r && r2 / 2 < r {
                        if r2 > r {
                            lemma_pow2_gap(r as nat, r2 as nat);
                        }
                    } else {
                        assert(is_pow2(r as nat) && r <= usize::MAX);
                    }
                }
            }
        },
    }
}

/// Apply rounding to `n` according to the configured strategy.
pub fn apply_rounding(n: usize, mode: Rounding) -> (r: usize)
    ensures
        rounding_ok(n, mode, r),
{
    match mode {
        Rounding::Exact => n,
        Rounding::To8 => {
            if n == 0 {
                0
            } else {
                let q = n / 8 + if n % 8 == 0 {
                    0
                } else {
                    1
                };
                assert(q == (n + 7) / 8);
                if q > usize::MAX / 8 {
                    assert(q * 8 > usize::MAX);
                    usize::MAX
                } else {
                    q * 8
                }
            }
        },
        Rounding::NextPow2 => next_pow2_saturating(n),
    }
}

// ───────────────────────────── the rules ───────────────────────────────

/// `{:?}` of a `Rounding`.
pub open spec fn rounding_debug(r: Rounding) -> Seq<char> {
    match r {
        Rounding::NextPow2 => "NextPow2"@,
        Rounding::To8 => "To8"@,
        Rounding::Exact => "Exact"@,
    }
}

/// The note appended to a patch reason for byte-valued profiles.
pub open spec fn unit_tag(u: Unit) -> Seq<char> {
    match u {
        Unit::Bytes => " bytes (needs manual divide by size_of::<T>)"@,
        Unit::Elements => ""@,
    }
}

/// The capacity a current expression stands for (0 for `Zero`).
pub open spec fn current_lit(c: CapExpr) -> usize {
    match c {
        CapExpr::Literal(n) => n,
        _ => 0,
    }
}

/// The peak a site must reach before a patch is proposed.
pub open spec fn growth_threshold(lit: usize, growth_factor: usize) -> nat {
    if lit == 0 {
        4
    } else {
        let t = lit * growth_factor;
        if t > usize::MAX {
            usize::MAX as nat
        } else {
            t as nat
        }
    }
}

/// Whether `d` is the decision the rule table gives for the inputs.
pub open spec fn decision_ok(
    count: u64,
    peak: usize,
    p95: usize,
    unit: Unit,
    current: CapExpr,
    min_count: u64,
    growth_factor: usize,
    rounding: Rounding,
    d: DecisionView,
) -> bool {
    if count < min_count {
        d == DecisionView::Skip {
            reason: "count="@ + dec(count as nat) + " < "@ + dec(min_count as nat)
                + " (low frequency, not statistically sound)"@,
        }
    } else if peak == 0 {
        d == DecisionView::Skip { reason: "peak=0 (phantom site, no allocation observed)"@ }
    } else if current is Dynamic {
        d == DecisionView::Skip { reason: "current cap is a dynamic expression (manual review)"@ }
    } else if current is Literal && current_lit(current) >= peak {
        d == DecisionView::Skip {
            reason: "current cap "@ + dec(current_lit(current) as nat) + " already covers observed peak "@
                + dec(peak as nat),
        }
    } else if peak < growth_threshold(current_lit(current), growth_factor) {
        d == DecisionView::Skip {
            reason: "peak="@ + dec(peak as nat) + " < "@ + dec(growth_factor as nat) + "x current="@
                + dec(current_lit(current) as nat) + " (variation within normal bounds)"@,
        }
    } else {
        match d {
            DecisionView::Patch { to, reason } => {
                &&& rounding_ok(if p95 >= 1 { p95 } else { 1 }, rounding, to)
                &&& reason == "peak="@ + dec(peak as nat) + " p95="@ + dec(p95 as nat) + " count="@
                    + dec(count as nat) + " → "@ + rounding_debug(rounding) + unit_tag(unit)
            },
            DecisionView::Skip { .. } => false,
        }
    }
}

fn push_rounding_debug(out: &mut Vec<char>, r: Rounding)
    ensures
        final(out)@ == old(out)@ + rounding_debug(r),
{
    match r {
        Rounding::NextPow2 => push_str(out, "NextPow2"),
        Rounding::To8 => push_str(out, "To8"),
        Rounding::Exact => push_str(out, "Exact"),
    }
}

/// Core decision routine with the default `RuleConfig`.
pub fn propose_cap(stats: &SiteStats, current: &CapExpr) -> (d: Decision)
    ensures
        decision_ok(
            stats.count,
            stats.peak,
            stats.p95,
            stats.unit,
            *current,
            DEFAULT_MIN_COUNT,
            DEFAULT_GROWTH_FACTOR,
            Rounding::NextPow2,
            d@,
        ),
{
    propose_cap_with(stats, current, RuleConfig::default())
}

/// Core decision routine.  Pure: no side effects, no I/O.
pub fn propose_cap_with(stats: &SiteStats, current: &CapExpr, cfg: RuleConfig) -> (d: Decision)
    ensures
        decision_ok(
            stats.count,
            stats.peak,
            stats.p95,
            stats.unit,
            *current,
            cfg.min_count,
            cfg.growth_factor,
            cfg.rounding,
            d@,
        ),
{
    // Rule 1 — low frequency.
    if stats.count < cfg.min_count {
        let mut r: Vec<char> = Vec::new();
        push_str(&mut r, "count=");
        push_dec(&mut r, stats.count);
        push_str(&mut r, " < ");
        push_dec(&mut r, cfg.min_count);
        push_str(&mut r, " (low frequency, not statistically sound)");
        return Decision::Skip { reason: string_of(&r) };
    }
    // Rule 2 — phantom site.
    if stats.peak == 0 {
        let mut r: Vec<char> = Vec::new();
        push_str(&mut r, "peak=0 (phantom site, no allocation observed)");
        return Decision::Skip { reason: string_of(&r) };
    }
    // Rule 3 — dynamic cap expression.
    if let CapExpr::Dynamic(_) = current {
        let mut r: Vec<char> = Vec::new();
        push_str(&mut r, "current cap is a dynamic expression (manual review)");
        return Decision::Skip { reason: string_of(&r) };
    }
    // Rule 4 — current literal already covers peak.
    if let CapExpr::Literal(c) = current {
        if *c >= stats.peak {
            let mut r: Vec<char> = Vec::new();
            push_str(&mut r, "current cap ");
            push_dec(&mut r, *c as u64);
            push_str(&mut r, " already covers observed peak ");
            push_dec(&mut r, stats.peak as u64);
            return Decision::Skip { reason: string_of(&r) };
        }
    }
    // Rules 5 + 6 — growth gate.
    let lit: usize = match current {
        CapExpr::Literal(c) => *c,
        _ => 0,
    };
    let threshold: usize = if lit == 0 {
        4
    } else {
        match lit.checked_mul(cfg.growth_factor) {
            Some(t) => t,
            None => usize::MAX,
        }
    };
    if stats.peak < threshold {
        let mut r: Vec<char> = Vec::new();
        push_str(&mut r, "peak=");
        push_dec(&mut r, stats.peak as u64);
        push_str(&mut r, " < ");
        push_dec(&mut r, cfg.growth_factor as u64);
        push_str(&mut r, "x current=");
        push_dec(&mut r, lit as u64);
        push_str(&mut r, " (variation within normal bounds)");
        return Decision::Skip { reason: string_of(&r) };
    }
    // Proposed cap: p95 (a stable upper bound), rounded.
    let base = if stats.p95 >= 1 {
        stats.p95
    } else {
        1
    };
    let proposed = apply_rounding(base, cfg.rounding);
    let mut r: Vec<char> = Vec::new();
    push_str(&mut r, "peak=");
    push_dec(&mut r, stats.peak as u64);
    push_str(&mut r, " p95=");
    push_dec(&mut r, stats.p95 as u64);
    push_str(&mut r, " count=");
    push_dec(&mut r, stats.count);
    push_str(&mut r, " → ");
    push_rounding_debug(&mut r, cfg.rounding);
    match stats.unit {
        Unit::Bytes => push_str(&mut r, " bytes (needs manual divide by size_of::<T>)"),
        Unit::Elements => push_str(&mut r, ""),
    }
    Decision::Patch { to: proposed, reason: string_of(&r) }
}

/// A rounding gives one result: two sizes that are both the rounding of
/// `n` in the same mode are equal.
pub proof fn lemma_rounding_unique(n: usize, mode: Rounding, r1: usize, r2: usize)
    requires
        rounding_ok(n, mode, r1),
        rounding_ok(n, mode, r2),
    ensures
        r1 == r2,
{
    lemma_max_not_pow2();
    match mode {
        Rounding::NextPow2 => {
            if n > 1 && r1 != r2 {
                if is_pow2(r1 as nat) && r1 >= n && r1 / 2 < n && is_pow2(r2 as nat) && r2 >= n && r2 / 2 < n {
                    if r1 < r2 {
                        lemma_pow2_gap(r1 as nat, r2 as nat);
                    } else {
                        lemma_pow2_gap(r2 as nat, r1 as nat);
                    }
                }
            }
        },
        _ => {},
    }
}

/// A proposed patch is sized from p95, never from the peak: its target is
/// the configured rounding of `max(p95, 1)` (for the default rounding, the
/// least power of two that is at least `max(p95, 1)`, or `usize::MAX` when
/// none fits), and two sites that differ only in their peak, when both are
/// patched, get the same target.
pub proof fn lemma_patch_sized_from_p95(
    count: u64,
    peak: usize,
    peak2: usize,
    p95: usize,
    unit: Unit,
    current: CapExpr,
    min_count: u64,
    growth_factor: usize,
    rounding: Rounding,
    d: DecisionView,
    d2: DecisionView,
)
    requires
        decision_ok(count, peak, p95, unit, current, min_count, growth_factor, rounding, d),
        decision_ok(count, peak2, p95, unit, current, min_count, growth_factor, rounding, d2),
    ensures
        d matches DecisionView::Patch { to, .. } ==> {
            let base: usize = if p95 >= 1 { p95 } else { 1 };
            &&& rounding == Rounding::Exact ==> to == base
            &&& rounding == Rounding::To8 ==> (to as int % 8 == 0 && base <= to < base + 8) || to == usize::MAX
            &&& rounding == Rounding::NextPow2 ==> (is_pow2(to as nat) && to >= base && to / 2 < base) || (to
                == usize::MAX && forall|p: nat| is_pow2(p) && p <= usize::MAX ==> p < base)
        },
        d is Patch && d2 is Patch ==> d->Patch_to == d2->Patch_to,
{
    if let DecisionView::Patch { to, .. } = d {
        let base: usize = if p95 >= 1 { p95 } else { 1 };
        assert(rounding_ok(base, rounding, to));
        if rounding == Rounding::To8 {
            let q: int = (base + 7) / 8;
            if q * 8 <= usize::MAX {
                assert(to == q * 8);
                assert(to as int % 8 == 0 && base <= to < base + 8) by (nonlinear_arith)
                    requires
                        q == (base + 7) / 8,
                        to == q * 8,
                        base >= 1,
                ;
            }
        }
        if let DecisionView::Patch { to: to2, .. } = d2 {
            assert(rounding_ok(base, rounding, to2));
            lemma_rounding_unique(base, rounding, to, to2);
        }
    }
}

/// When the rules patch a site: only a site created at least `min_count`
/// times, with a positive peak, whose current capacity is not a dynamic
/// expression, is not a literal that already covers the peak, and whose
/// peak reached the growth gate (4 for a site with no capacity, otherwise
/// `growth_factor` times the current literal, saturating); every other
/// site is skipped.
pub proof fn lemma_when_patched(
    count: u64,
    peak: usize,
    p95: usize,
    unit: Unit,
    current: CapExpr,
    min_count: u64,
    growth_factor: usize,
    rounding: Rounding,
    d: DecisionView,
)
    requires
        decision_ok(count, peak, p95, unit, current, min_count, growth_factor, rounding, d),
    ensures
        d is Patch <==> {
            &&& count >= min_count
            &&& peak > 0
            &&& !(current is Dynamic)
            &&& current matches CapExpr::Literal(c) ==> c < peak
            &&& match current {
                CapExpr::Literal(c) => c == 0 && peak >= 4 || c > 0 && (c * growth_factor > usize::MAX
                    ==> peak == usize::MAX) && (c * growth_factor <= usize::MAX ==> peak >= c * growth_factor),
                _ => peak >= 4,
            }
        },
{
}

} // verus!
