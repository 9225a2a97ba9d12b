//! Decisions of the `measure` cycle: recognising compiled bench binaries,
//! finding the crate that owns a bench target, and picking the newest
//! binary.
use vstd::prelude::*;

use crate::text::{chars_of, push_str, starts_with, starts_with_exec};

verus! {

/// A lowercase hex digit.
pub open spec fn is_lower_hex(c: char) -> bool {
    ('0' <= c && c <= '9') || ('a' <= c && c <= 'f')
}

/// `stem` is `<bench_name>-<hash>` with a non-empty lowercase hex hash.
pub open spec fn is_bench_stem_spec(stem: Seq<char>, bench_name: Seq<char>) -> bool {
    let prefix = bench_name + "-"@;
    let suffix = stem.skip(prefix.len() as int);
    starts_with(stem, prefix) && suffix.len() > 0 && forall|i: int|
        0 <= i < suffix.len() ==> is_lower_hex(#[trigger] suffix[i])
}

/// Whether a file stem is that of the compiled bench `bench_name`: the name,
/// a `-`, and a non-empty lowercase hex hash (as cargo writes it).
pub fn is_bench_stem(stem: &str, bench_name: &str) -> (r: bool)
    ensures
        r == is_bench_stem_spec(stem@, bench_name@),
{
    let s = chars_of(stem);
    let mut prefix = chars_of(bench_name);
    push_str(&mut prefix, "-");
    if !starts_with_exec(&s, &prefix) {
        return false;
    }
    let ghost suffix = s@.skip(prefix.len() as int);
    if s.len() == prefix.len() {
        return false;
    }
    let mut i = prefix.len();
    while i < s.len()
        invariant
            prefix.len() <= i <= s.len(),
            s@ == stem@,
            prefix@ == bench_name@ + "-"@,
            starts_with(s@, prefix@),
            suffix == s@.skip(prefix.len() as int),
            forall|k: int| 0 <= k < i - prefix.len() ==> is_lower_hex(#[trigger] suffix[k]),
        decreases s.len() - i,
    {
        let c = s[i];
        assert(suffix[i - prefix.len()] == c);
        if !(('0' <= c && c <= '9') || ('a' <= c && c <= 'f')) {
            return false;
        }
        i = i + 1;
    }
    true
}

/// A target of a package, as `cargo metadata` lists it.
pub struct TargetInfo {
    pub name: String,
    pub kinds: Vec<String>,
}

/// A package and its targets, as `cargo metadata` lists them.
pub struct PackageInfo {
    pub name: String,
    pub targets: Vec<TargetInfo>,
}

/// Target `t` is a bench named `bench`.
pub open spec fn is_bench_named(t: TargetInfo, bench: Seq<char>) -> bool {
    (exists|k: int| 0 <= k < t.kinds.len() && #[trigger] t.kinds@[k]@ == "bench"@) && t.name@ == bench
}

/// Package `p` has a bench target named `bench`.
pub open spec fn has_bench(p: PackageInfo, bench: Seq<char>) -> bool {
    exists|t: int| 0 <= t < p.targets.len() && #[trigger] is_bench_named(p.targets@[t], bench)
}

/// The first package from position `k` on with a bench target named
/// `bench`.
pub open spec fn first_bench_owner(ps: Seq<PackageInfo>, bench: Seq<char>, k: int) -> Option<int>
    decreases ps.len() - k,
{
    if k >= ps.len() || k < 0 {
        None
    } else if has_bench(ps[k], bench) {
        Some(k)
    } else {
        first_bench_owner(ps, bench, k + 1)
    }
}

fn target_is_bench(t: &TargetInfo, bench_name: &str) -> (r: bool)
    ensures
        r == is_bench_named(*t, bench_name@),
{
    let bench = chars_of("bench");
    let mut found = false;
    let mut k: usize = 0;
    while k < t.kinds.len()
        invariant
            k <= t.kinds.len(),
            bench@ == "bench"@,
            found == exists|j: int| 0 <= j < k && #[trigger] t.kinds@[j]@ == "bench"@,
        decreases t.kinds.len() - k,
    {
        if crate::text::str_eq(t.kinds[k].as_str(), "bench") {
            found = true;
        }
        k = k + 1;
    }
    found && crate::text::str_eq(t.name.as_str(), bench_name)
}

/// The name of the crate that owns the bench target `bench_name`: the first
/// package, in listing order, with a target of kind `bench` of that name.
pub fn bench_crate_for(packages: &Vec<PackageInfo>, bench_name: &str) -> (r: Option<String>)
    ensures
        match r {
            Some(n) => first_bench_owner(packages@, bench_name@, 0) matches Some(p) && n@
                == packages@[p].name@,
            None => first_bench_owner(packages@, bench_name@, 0) is None,
        },
{
    let mut p: usize = 0;
    while p < packages.len()
        invariant
            p <= packages.len(),
            first_bench_owner(packages@, bench_name@, 0) == first_bench_owner(
                packages@,
                bench_name@,
                p as int,
            ),
        decreases packages.len() - p,
    {
        let pkg = &packages[p];
        let mut t: usize = 0;
        while t < pkg.targets.len()
            invariant
                t <= pkg.targets.len(),
                p < packages.len(),
                pkg == packages@[p as int],
                first_bench_owner(packages@, bench_name@, 0) == first_bench_owner(
                    packages@,
                    bench_name@,
                    p as int,
                ),
                forall|u: int| 0 <= u < t ==> !#[trigger] is_bench_named(pkg.targets@[u], bench_name@),
            decreases pkg.targets.len() - t,
        {
            if target_is_bench(&pkg.targets[t], bench_name) {
                assert(is_bench_named(packages@[p as int].targets@[t as int], bench_name@));
                assert(has_bench(packages@[p as int], bench_name@));
                return Some(pkg.name.clone());
            }
            t = t + 1;
        }
        assert(!has_bench(packages@[p as int], bench_name@));
        p = p + 1;
    }
    None
}

/// The position of the newest of several files by modification time (a
/// missing time oldest); of equally new ones, the last.
pub open spec fn newest_spec(times: Seq<Option<u128>>, n: int) -> int
    decreases n,
{
    if n <= 1 {
        0
    } else {
        let best = newest_spec(times, n - 1);
        if time_le(times[best], times[n - 1]) {
            n - 1
        } else {
            best
        }
    }
}

/// `Option` order: `None` first.
pub open spec fn time_le(a: Option<u128>, b: Option<u128>) -> bool {
    match (a, b) {
        (None, _) => true,
        (Some(_), None) => false,
        (Some(x), Some(y)) => x <= y,
    }
}

/// The position of the most recently modified of several candidate files,
/// as a stable sort by modification time followed by taking the last does.
pub fn newest(times: &Vec<Option<u128>>) -> (r: usize)
    requires
        times.len() > 0,
    ensures
        r == newest_spec(times@, times.len() as int),
{
    let mut best: usize = 0;
    let mut i: usize = 1;
    while i < times.len()
        invariant
            1 <= i <= times.len(),
            best < i,
            best == newest_spec(times@, i as int),
        decreases times.len() - i,
    {
        let le = match (times[best], times[i]) {
            (None, _) => true,
            (Some(_), None) => false,
            (Some(x), Some(y)) => x <= y,
        };
        if le {
            best = i;
        }
        i = i + 1;
    }
    best
}

/// The arguments of `measure`.
pub struct MeasureArgs {
    /// Where to look for the workspace to measure.
    pub workspace: String,
    /// The local `captrack` crate wired in for the run.
    pub captrack_path: String,
    /// The bench targets to run; at least one.
    pub benches: Vec<String>,
    /// The lint crate; the default one otherwise.
    pub lint_path: Option<String>,
    /// Where the merged profile goes.
    pub out: String,
    /// How long one bench may run before it is killed, in milliseconds.
    pub bench_timeout_ms: u64,
    /// `CARGO_TARGET_DIR` for the builds, if set.
    pub cargo_target_dir: Option<String>,
    /// Reservoir bound for the merge; zero is unlimited.
    pub reservoir_cap: usize,
    /// Let the lint change files with uncommitted edits.
    pub allow_dirty: bool,
}

/// What one bench run gave.
pub struct BenchReport {
    pub name: String,
    /// Where its dump is expected.
    pub profile_path: String,
    /// Its exit code; `-1` when it was killed or had none.
    pub exit_code: i32,
}

/// What a whole `measure` run gave.
pub struct MeasureReport {
    pub benches_run: Vec<BenchReport>,
    /// Sites in the merged profile.
    pub unique_sites: usize,
    pub merged_path: String,
}

/// The exit code recorded for a bench: its own code, or `-1` when it was
/// killed at the timeout (`None`) or ended without one (`Some(None)`).
pub fn bench_exit_code(status: Option<Option<i32>>) -> (r: i32)
    ensures
        r == match status {
            Some(Some(c)) => c,
            _ => -1i32,
        },
{
    match status {
        Some(Some(c)) => c,
        _ => -1,
    }
}

/// The arguments given to `cargo` to build bench `bench` of crate `krate`
/// without running it, with telemetry on.
pub open spec fn bench_build_args_spec(krate: Seq<char>, bench: Seq<char>, manifest: Seq<char>) -> Seq<Seq<char>> {
    seq![
        "bench"@,
        "--no-run"@,
        "-p"@,
        krate,
        "--bench"@,
        bench,
        "--manifest-path"@,
        manifest,
        "--features"@,
        "captrack/telemetry"@,
    ]
}

/// The views of a list of strings.
pub open spec fn arg_views(v: Seq<String>) -> Seq<Seq<char>> {
    Seq::new(v.len(), |i: int| v[i]@)
}

/// The `cargo bench --no-run` arguments for bench `bench` of crate `krate`
/// in the workspace whose manifest is `manifest`.
pub fn bench_build_args(krate: &str, bench: &str, manifest: &str) -> (r: Vec<String>)
    ensures
        arg_views(r@) == bench_build_args_spec(krate@, bench@, manifest@),
{
    let mut r: Vec<String> = Vec::new();
    r.push("bench".to_string());
    r.push("--no-run".to_string());
    r.push("-p".to_string());
    r.push(krate.to_string());
    r.push("--bench".to_string());
    r.push(bench.to_string());
    r.push("--manifest-path".to_string());
    r.push(manifest.to_string());
    r.push("--features".to_string());
    r.push("captrack/telemetry".to_string());
    assert(arg_views(r@) =~= bench_build_args_spec(krate@, bench@, manifest@));
    r
}

/// The dump file a bench writes in `dump_dir`: the automatic dump's file
/// for that directory and the bench binary's file stem `stem` (the bench
/// name followed by the build hash), `profile-<stem>.json`.
pub fn bench_dump_file(dump_dir: &str, stem: &str) -> (r: String)
    ensures
        r@ == crate::autodump::dump_path_spec(Some(dump_dir@), Some(stem@)),
        r@ == crate::paths::join_spec(dump_dir@, "profile-"@ + stem@ + ".json"@),
{
    crate::autodump::default_dump_path(Some(dump_dir), Some(stem))
}

/// The guard that restores the workspace unless disarmed: armed when made,
/// disarmed just before the explicit cleanup of a successful run.
pub struct CleanupGuard {
    workspace_root: String,
    armed: bool,
}

impl CleanupGuard {
    /// Whether dropping the guard cleans up.
    pub closed spec fn armed_spec(&self) -> bool {
        self.armed
    }

    /// The workspace the guard restores.
    pub closed spec fn root_spec(&self) -> Seq<char> {
        self.workspace_root@
    }

    /// An armed guard for the workspace at `workspace_root`.
    pub fn new(workspace_root: &str) -> (r: CleanupGuard)
        ensures
            r.armed_spec(),
            r.root_spec() == workspace_root@,
    {
        CleanupGuard { workspace_root: workspace_root.to_string(), armed: true }
    }

    /// Disarm the guard: dropping it then does nothing.
    pub fn disarm(&mut self)
        ensures
            !final(self).armed_spec(),
            final(self).root_spec() == old(self).root_spec(),
    {
        self.armed = false;
    }

    /// Whether dropping the guard cleans up.
    pub fn is_armed(&self) -> (r: bool)
        ensures
            r == self.armed_spec(),
    {
        self.armed
    }

    /// The workspace the guard restores.
    pub fn workspace_root(&self) -> (r: &str)
        ensures
            r@ == self.root_spec(),
    {
        self.workspace_root.as_str()
    }
}

/// Why a `measure` run is given up.
#[derive(Debug, Clone, Copy, PartialEq, Eq)]
pub enum MeasureFailure {
    /// No bench target was named.
    NoBenches,
    /// A step failed.
    StepFailed,
    /// The benches left no dump to merge.
    NoDumps,
}

/// Where a `measure` run stands.
#[derive(Debug, Clone, Copy, PartialEq, Eq)]
pub enum MeasureStage {
    Start,
    Wiring,
    Instrumenting,
    /// Running bench `i`.
    Benching(usize),
    /// Counting the dumps the benches left.
    Collecting,
    Merging,
    /// Restoring the workspace; then done, or given up for the reason.
    CleaningUp(Option<MeasureFailure>),
    Finished,
    Aborted(MeasureFailure),
}

/// What the last step reported.
#[derive(Debug, Clone, Copy, PartialEq, Eq, Structural)]
pub enum MeasureEvent {
    /// The step succeeded.
    Done,
    /// The step failed.
    Failed,
    /// The number of dump files found.
    Dumps(usize),
}

/// What to do next.
#[derive(Debug, Clone, Copy, PartialEq, Eq)]
pub enum MeasureAction {
    Wire,
    Instrument,
    /// Build and run bench `i`.
    Bench(usize),
    CountDumps,
    Merge,
    /// Undo instrument and wire, best effort.
    Cleanup,
    /// Report the result.
    Report,
    /// Give up with the reason.
    Abort(MeasureFailure),
    /// Nothing: the run is over.
    Stop,
}

/// The transition table of a `measure` run of `benches` bench targets: in
/// `stage`, told `ev` of the last step, the run goes to `next` and does
/// `act`.  The cycle is `wire → instrument → bench each → count dumps →
/// merge → cleanup → report`.  Once the workspace is wired every way out
/// goes through cleanup; a failed wire, or a run with no bench, gives up at
/// once.  Cleanup is best effort: whatever it reports, the run then ends.
pub open spec fn measure_row(
    stage: MeasureStage,
    benches: usize,
    ev: MeasureEvent,
    next: MeasureStage,
    act: MeasureAction,
) -> bool {
    let failed = MeasureStage::CleaningUp(Some(MeasureFailure::StepFailed));
    ||| stage is Start && benches == 0 && next == MeasureStage::Aborted(MeasureFailure::NoBenches) && act
        == MeasureAction::Abort(MeasureFailure::NoBenches)
    ||| stage is Start && benches > 0 && next == MeasureStage::Wiring && act == MeasureAction::Wire
    ||| stage is Wiring && ev is Done && next == MeasureStage::Instrumenting && act == MeasureAction::Instrument
    ||| stage is Wiring && !(ev is Done) && next == MeasureStage::Aborted(MeasureFailure::StepFailed) && act
        == MeasureAction::Abort(MeasureFailure::StepFailed)
    ||| stage is Instrumenting && ev is Done && benches == 0 && next == MeasureStage::Collecting && act
        == MeasureAction::CountDumps
    ||| stage is Instrumenting && ev is Done && benches > 0 && next == MeasureStage::Benching(0) && act
        == MeasureAction::Bench(0)
    ||| stage matches MeasureStage::Benching(i) && ev is Done && i + 1 < benches && next == MeasureStage::Benching(
        (i + 1) as usize,
    ) && act == MeasureAction::Bench((i + 1) as usize)
    ||| stage matches MeasureStage::Benching(i) && ev is Done && i + 1 >= benches && next
        == MeasureStage::Collecting && act == MeasureAction::CountDumps
    ||| (ev matches MeasureEvent::Dumps(c) && c > 0 && stage is Collecting && next == MeasureStage::Merging && act
        == MeasureAction::Merge)
    ||| stage is Collecting && ev == MeasureEvent::Dumps(0) && next == MeasureStage::CleaningUp(
        Some(MeasureFailure::NoDumps),
    ) && act == MeasureAction::Cleanup
    ||| stage is Merging && ev is Done && next == MeasureStage::CleaningUp(None) && act == MeasureAction::Cleanup
    ||| (stage is Instrumenting || stage is Benching || stage is Merging) && !(ev is Done) && next == failed && act
        == MeasureAction::Cleanup
    ||| stage is Collecting && !(ev is Dumps) && next == failed && act == MeasureAction::Cleanup
    ||| stage == MeasureStage::CleaningUp(None) && next == MeasureStage::Finished && act == MeasureAction::Report
    ||| stage matches MeasureStage::CleaningUp(Some(f)) && next == MeasureStage::Aborted(f) && act
        == MeasureAction::Abort(f)
    ||| stage is Finished && next == MeasureStage::Finished && act == MeasureAction::Stop
    ||| stage matches MeasureStage::Aborted(f) && next == stage && act == MeasureAction::Stop
}

/// The table gives one row for each stage and event: its rows do not
/// overlap.
pub proof fn lemma_measure_table_is_a_function(
    stage: MeasureStage,
    benches: usize,
    ev: MeasureEvent,
    n1: MeasureStage,
    a1: MeasureAction,
    n2: MeasureStage,
    a2: MeasureAction,
)
    requires
        measure_row(stage, benches, ev, n1, a1),
        measure_row(stage, benches, ev, n2, a2),
    ensures
        n1 == n2,
        a1 == a2,
{
}

/// The next stage and action of a `measure` run of `benches` bench targets,
/// given what the last step reported.
pub fn measure_step(stage: MeasureStage, benches: usize, ev: MeasureEvent) -> (r: (MeasureStage, MeasureAction))
    ensures
        measure_row(stage, benches, ev, r.0, r.1),
{
    match stage {
        MeasureStage::Start => if benches == 0 {
            (MeasureStage::Aborted(MeasureFailure::NoBenches), MeasureAction::Abort(MeasureFailure::NoBenches))
        } else {
            (MeasureStage::Wiring, MeasureAction::Wire)
        },
        MeasureStage::Wiring => if ev == MeasureEvent::Done {
            (MeasureStage::Instrumenting, MeasureAction::Instrument)
        } else {
            (MeasureStage::Aborted(MeasureFailure::StepFailed), MeasureAction::Abort(MeasureFailure::StepFailed))
        },
        MeasureStage::Instrumenting => if ev == MeasureEvent::Done {
            if benches == 0 {
                (MeasureStage::Collecting, MeasureAction::CountDumps)
            } else {
                (MeasureStage::Benching(0), MeasureAction::Bench(0))
            }
        } else {
            (MeasureStage::CleaningUp(Some(MeasureFailure::StepFailed)), MeasureAction::Cleanup)
        },
        MeasureStage::Benching(i) => if ev == MeasureEvent::Done {
            if i < benches && i + 1 < benches {
                (MeasureStage::Benching(i + 1), MeasureAction::Bench(i + 1))
            } else {
                (MeasureStage::Collecting, MeasureAction::CountDumps)
            }
        } else {
            (MeasureStage::CleaningUp(Some(MeasureFailure::StepFailed)), MeasureAction::Cleanup)
        },
        MeasureStage::Collecting => match ev {
            MeasureEvent::Dumps(c) => if c > 0 {
                (MeasureStage::Merging, MeasureAction::Merge)
            } else {
                (MeasureStage::CleaningUp(Some(MeasureFailure::NoDumps)), MeasureAction::Cleanup)
            },
            _ => (MeasureStage::CleaningUp(Some(MeasureFailure::StepFailed)), MeasureAction::Cleanup),
        },
        MeasureStage::Merging => if ev == MeasureEvent::Done {
            (MeasureStage::CleaningUp(None), MeasureAction::Cleanup)
        } else {
            (MeasureStage::CleaningUp(Some(MeasureFailure::StepFailed)), MeasureAction::Cleanup)
        },
        MeasureStage::CleaningUp(reason) => match reason {
            None => (MeasureStage::Finished, MeasureAction::Report),
            Some(f) => (MeasureStage::Aborted(f), MeasureAction::Abort(f)),
        },
        MeasureStage::Finished => (MeasureStage::Finished, MeasureAction::Stop),
        MeasureStage::Aborted(f) => (MeasureStage::Aborted(f), MeasureAction::Stop),
    }
}

/// Whether the workspace is wired (and possibly instrumented) in a stage:
/// every stage after a successful wire and before cleanup.
pub open spec fn wired(stage: MeasureStage) -> bool {
    match stage {
        MeasureStage::Instrumenting | MeasureStage::Benching(_) | MeasureStage::Collecting
        | MeasureStage::Merging => true,
        _ => false,
    }
}

/// Once the workspace is wired, a run never gives up without restoring it
/// first: whatever a wired stage is told, the next action is a further
/// step of the cycle or the cleanup, never an abort; a failure goes to
/// cleanup; and after cleanup the run ends, giving up exactly when
/// something failed.
pub proof fn lemma_wired_runs_clean_up(
    stage: MeasureStage,
    benches: usize,
    ev: MeasureEvent,
    next: MeasureStage,
    act: MeasureAction,
    ev2: MeasureEvent,
    next2: MeasureStage,
    act2: MeasureAction,
)
    requires
        wired(stage),
        measure_row(stage, benches, ev, next, act),
        measure_row(next, benches, ev2, next2, act2),
    ensures
        !(act is Abort),
        !(act is Stop),
        !(act is Report),
        act is Cleanup ==> next is CleaningUp && act2 == match next->CleaningUp_0 {
            None => MeasureAction::Report,
            Some(f) => MeasureAction::Abort(f),
        },
        ev == MeasureEvent::Failed ==> next == MeasureStage::CleaningUp(Some(MeasureFailure::StepFailed)) && act
            == MeasureAction::Cleanup,
{
}

/// A run that was never wired gives up without cleanup: with no bench it
/// aborts at the start, and a failed wire aborts at once.
pub proof fn lemma_unwired_failures_abort(benches: usize, ev: MeasureEvent, next: MeasureStage, act: MeasureAction)
    ensures
        benches == 0 && measure_row(MeasureStage::Start, benches, ev, next, act) ==> act == MeasureAction::Abort(
            MeasureFailure::NoBenches,
        ),
        ev != MeasureEvent::Done && measure_row(MeasureStage::Wiring, benches, ev, next, act) ==> act
            == MeasureAction::Abort(MeasureFailure::StepFailed),
{
}

} // verus!
