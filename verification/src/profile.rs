//! Profile backends: where the per-site statistics for the planner come
//! from.
//!
//! A captrack dump carries element counts and the raw samples of every
//! site, so real percentiles and the mean are computed from them.  A dhat
//! heap dump carries byte peaks per program point (see `dhat`).
use vstd::prelude::*;
use crate::merge::DumpEntry;
use crate::model::{Mean, SiteKey, SiteKeyView, SiteStats, Unit};
use crate::stats::{SampleStats, stats_of};

verus! {

/// A captrack JSON dump, read from `file`.
pub struct CaptrackProfile {
    file: String,
}

impl CaptrackProfile {
    /// The profile stored at `file`.
    pub fn new(file: &str) -> (r: CaptrackProfile)
        ensures
            r.file_spec() == file@,
    {
        CaptrackProfile { file: file.to_string() }
    }

    /// The path of the dump.
    pub closed spec fn file_spec(&self) -> Seq<char> {
        self.file@
    }

    /// The path of the dump.
    pub fn file(&self) -> (r: &str)
        ensures
            r@ == self.file_spec(),
    {
        self.file.as_str()
    }
}

/// A dhat heap dump, read from `file`, for the workspace at
/// `workspace_root`.
pub struct DhatProfile {
    file: String,
    workspace_root: String,
}

impl DhatProfile {
    /// The dhat profile stored at `file` for the workspace at
    /// `workspace_root`.
    pub fn new(file: &str, workspace_root: &str) -> (r: DhatProfile)
        ensures
            r.file_spec() == file@,
            r.root_spec() == workspace_root@,
    {
        DhatProfile { file: file.to_string(), workspace_root: workspace_root.to_string() }
    }

    /// The path of the dump.
    pub closed spec fn file_spec(&self) -> Seq<char> {
        self.file@
    }

    /// The workspace root.
    pub closed spec fn root_spec(&self) -> Seq<char> {
        self.workspace_root@
    }

    /// The path of the dump.
    pub fn file(&self) -> (r: &str)
        ensures
            r@ == self.file_spec(),
    {
        self.file.as_str()
    }

    /// The workspace root.
    pub fn workspace_root(&self) -> (r: &str)
        ensures
            r@ == self.root_spec(),
    {
        self.workspace_root.as_str()
    }
}

/// The planner statistics of one dump entry: element counts; peak, median,
/// 95th and 99th percentile and mean of its samples, or zeros and no
/// distribution when it has none; the construction count; no policy.
pub open spec fn entry_stats_ok(r: SiteStats, file: Seq<char>, line: u32, column: u32, creation_count: u64, samples: Seq<usize>) -> bool {
    &&& r.key@ == SiteKeyView { file, line, col: column }
    &&& r.unit == Unit::Elements
    &&& r.count == creation_count
    &&& r.policy is None
    &&& match stats_of(samples) {
        Some(st) => {
            &&& r.peak == st.max
            &&& r.p50 == st.median
            &&& r.p95 == st.p95
            &&& r.p99 == Some(st.p99)
            &&& r.mean == Some(Mean { sum: st.sum, count: st.count })
        },
        None => {
            &&& r.peak == 0
            &&& r.p50 == 0
            &&& r.p95 == 0
            &&& r.p99 is None
            &&& r.mean is None
        },
    }
}

/// The planner statistics of one entry of a captrack dump.
pub fn entry_to_site_stats(e: &DumpEntry) -> (r: SiteStats)
    ensures
        entry_stats_ok(r, e.file@, e.line, e.column, e.creation_count, e.samples@),
{
    let key = SiteKey { file: e.file.clone(), line: e.line, col: e.column };
    match SampleStats::from_samples(e.samples.as_slice()) {
        Some(s) => {
            SiteStats {
                key,
                unit: Unit::Elements,
                peak: s.max,
                p50: s.median,
                p95: s.p95,
                count: e.creation_count,
                mean: Some(Mean { sum: s.sum, count: s.count }),
                p99: Some(s.p99),
                policy: None,
            }
        },
        None => SiteStats {
            key,
            unit: Unit::Elements,
            peak: 0,
            p50: 0,
            p95: 0,
            count: e.creation_count,
            mean: None,
            p99: None,
            policy: None,
        },
    }
}

/// The planner statistics of every entry of a captrack dump, in order.
pub fn captrack_sites(entries: &Vec<DumpEntry>) -> (r: Vec<SiteStats>)
    ensures
        r@.len() == entries@.len(),
        forall|i: int|
            0 <= i < r@.len() ==> entry_stats_ok(
                #[trigger] r@[i],
                entries@[i].file@,
                entries@[i].line,
                entries@[i].column,
                entries@[i].creation_count,
                entries@[i].samples@,
            ),
{
    let mut out: Vec<SiteStats> = Vec::new();
    let mut i: usize = 0;
    while i < entries.len()
        invariant
            i <= entries@.len(),
            out@.len() == i,
            forall|t: int|
                0 <= t < i ==> entry_stats_ok(
                    #[trigger] out@[t],
                    entries@[t].file@,
                    entries@[t].line,
                    entries@[t].column,
                    entries@[t].creation_count,
                    entries@[t].samples@,
                ),
        decreases entries.len() - i,
    {
        let st = entry_to_site_stats(&entries[i]);
        out.push(st);
        i = i + 1;
    }
    out
}

} // verus!
