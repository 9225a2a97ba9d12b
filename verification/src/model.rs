//! Shared data types: call-site keys, profile statistics, capacity
//! expressions and patch plans.
//!
//! Paths are carried as `String`s.  A multiplier that a profile writes as a
//! float (`cap_mul`) is carried in thousandths (`1.5` is `1500`); a mean is
//! carried exactly, as a sum over a count.
use vstd::prelude::*;

verus! {

/// Unique identifier for an allocation call-site: its source location.
///
/// Two sites at the same `(file, line, col)` are the same site.
#[derive(Debug, Clone, PartialEq, Eq, Hash, PartialOrd, Ord)]
pub struct SiteKey {
    pub file: String,
    pub line: u32,
    pub col: u32,
}

/// The mathematical value of a `SiteKey`.
pub struct SiteKeyView {
    pub file: Seq<char>,
    pub line: u32,
    pub col: u32,
}

impl View for SiteKey {
    type V = SiteKeyView;

    open spec fn view(&self) -> SiteKeyView {
        SiteKeyView { file: self.file@, line: self.line, col: self.col }
    }
}

/// Whether two keys denote the same site.
pub fn site_key_eq(a: &SiteKey, b: &SiteKey) -> (r: bool)
    ensures
        r == (a@ == b@),
{
    if a.line != b.line || a.col != b.col {
        return false;
    }
    let eq = a.file == b.file;
    eq
}

/// A copy of a key.
pub fn site_key_clone(k: &SiteKey) -> (r: SiteKey)
    ensures
        r@ == k@,
{
    SiteKey { file: k.file.clone(), line: k.line, col: k.col }
}

/// Whether `SiteStats::peak` and the percentile fields count bytes or
/// elements.
#[derive(Debug, Clone, Copy, PartialEq, Eq)]
pub enum Unit {
    Bytes,
    Elements,
}

/// Which aggregate statistic is used as the base capacity value.
///
/// Formula: `cap = round_mode( cap_from_value × cap_mul )`.
#[derive(Debug, Clone, Copy, PartialEq, Eq)]
pub enum CapFrom {
    /// The observed maximum.
    Max,
    /// The arithmetic mean.
    Mean,
    /// The 50th percentile.
    Median,
    /// The 95th percentile.
    P95,
    /// The 99th percentile.
    P99,
}

/// Rounding mode applied to `cap_from_value × cap_mul`.
#[derive(Debug, Clone, Copy, PartialEq, Eq)]
pub enum CapRound {
    /// Round up to the next power of two.
    Pow2,
    /// Round up to the nearest multiple of 8.
    To8,
    /// No rounding.
    Exact,
}

/// Per-site capacity policy; each field overrides the CLI default when set.
#[derive(Debug, Clone, PartialEq, Eq)]
pub struct SitePolicy {
    pub cap_from: Option<CapFrom>,
    /// Multiplier in thousandths (`2.0` is `2000`).
    pub cap_mul: Option<u64>,
    pub cap_round: Option<CapRound>,
}

/// An arithmetic mean, kept exactly: the sum of the samples over their
/// number.
#[derive(Debug, Clone, Copy, PartialEq, Eq)]
pub struct Mean {
    pub sum: u128,
    pub count: usize,
}

/// Aggregated allocation statistics for one source call-site.
#[derive(Debug, Clone, PartialEq, Eq)]
pub struct SiteStats {
    pub key: SiteKey,
    pub unit: Unit,
    pub peak: usize,
    pub p50: usize,
    pub p95: usize,
    pub count: u64,
    /// Arithmetic mean of the samples; `None` when the backend has no
    /// distribution.
    pub mean: Option<Mean>,
    /// 99th percentile; `None` when the backend has no distribution.
    pub p99: Option<usize>,
    /// Per-site policy override.
    pub policy: Option<SitePolicy>,
}

/// The capacity expression found at a constructor call-site.
#[derive(Debug, Clone, PartialEq, Eq)]
pub enum CapExpr {
    /// `X::new()` / `vec![]`: no capacity.
    Zero,
    /// `X::with_capacity(N)` with an integer literal.
    Literal(usize),
    /// Any other argument; the source text is kept.
    Dynamic(String),
}

/// The mathematical value of a `CapExpr`.
pub enum CapExprView {
    Zero,
    Literal(usize),
    Dynamic(Seq<char>),
}

impl View for CapExpr {
    type V = CapExprView;

    open spec fn view(&self) -> CapExprView {
        match self {
            CapExpr::Zero => CapExprView::Zero,
            CapExpr::Literal(n) => CapExprView::Literal(*n),
            CapExpr::Dynamic(s) => CapExprView::Dynamic(s@),
        }
    }
}

/// A copy of a capacity expression.
pub fn cap_expr_copy(c: &CapExpr) -> (r: CapExpr)
    ensures
        r@ == c@,
        r is Dynamic <==> c is Dynamic,
        r is Zero <==> c is Zero,
        (r is Literal || c is Literal) ==> r == *c,
{
    match c {
        CapExpr::Zero => CapExpr::Zero,
        CapExpr::Literal(n) => CapExpr::Literal(*n),
        CapExpr::Dynamic(s) => CapExpr::Dynamic(s.clone()),
    }
}

/// The collection a constructor builds.
#[derive(Debug, Clone, Copy, PartialEq, Eq)]
pub enum Ctor {
    Vec,
    VecDeque,
    HashMap,
    HashSet,
    BTreeMap,
    BTreeSet,
}

/// One constructor call found in source.
#[derive(Debug, PartialEq, Eq)]
pub struct AllocSite {
    pub key: SiteKey,
    pub ctor: Ctor,
    pub current_cap: CapExpr,
    /// Byte range to replace: the capacity argument, or the whole call for
    /// `CapExpr::Zero`.
    pub span_bytes: std::ops::Range<usize>,
}

/// The mathematical value of an `AllocSite`.
pub struct AllocSiteView {
    pub key: SiteKeyView,
    pub ctor: Ctor,
    pub current_cap: CapExprView,
    pub start: usize,
    pub end: usize,
}

impl View for AllocSite {
    type V = AllocSiteView;

    open spec fn view(&self) -> AllocSiteView {
        AllocSiteView {
            key: self.key@,
            ctor: self.ctor,
            current_cap: self.current_cap@,
            start: self.span_bytes.start,
            end: self.span_bytes.end,
        }
    }
}

/// One planned rewrite.
#[derive(Debug, PartialEq, Eq)]
pub struct PatchEntry {
    pub key: SiteKey,
    pub ctor: Ctor,
    pub from: CapExpr,
    pub to: usize,
    pub span_bytes: std::ops::Range<usize>,
    pub reason: String,
}

/// The mathematical value of a `PatchEntry`.
pub struct PatchEntryView {
    pub key: SiteKeyView,
    pub ctor: Ctor,
    pub from: CapExprView,
    pub to: usize,
    pub start: usize,
    pub end: usize,
    pub reason: Seq<char>,
}

impl View for PatchEntry {
    type V = PatchEntryView;

    open spec fn view(&self) -> PatchEntryView {
        PatchEntryView {
            key: self.key@,
            ctor: self.ctor,
            from: self.from@,
            to: self.to,
            start: self.span_bytes.start,
            end: self.span_bytes.end,
            reason: self.reason@,
        }
    }
}

/// The planner's output: rewrites, and the sites skipped with a reason.
#[derive(Debug, PartialEq, Eq)]
pub struct PatchPlan {
    pub entries: Vec<PatchEntry>,
    pub skipped: Vec<(SiteKey, String)>,
}

} // verus!
