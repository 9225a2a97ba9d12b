use captrack::measure::{
    bench_build_args, bench_crate_for, bench_dump_file, bench_exit_code, measure_step, newest, CleanupGuard, MeasureAction,
    MeasureEvent, MeasureFailure, MeasureStage, PackageInfo, TargetInfo,
};

#[test]
fn happy_path_runs_every_step_once() {
    let mut stage = MeasureStage::Start;
    let mut actions = Vec::new();
    let events = [
        MeasureEvent::Done,
        MeasureEvent::Done,
        MeasureEvent::Done,
        MeasureEvent::Done,
        MeasureEvent::Done,
        MeasureEvent::Dumps(2),
        MeasureEvent::Done,
        MeasureEvent::Done,
    ];
    for ev in events {
        let (s, a) = measure_step(stage, 2, ev);
        stage = s;
        actions.push(a);
    }
    assert_eq!(
        actions,
        vec![
            MeasureAction::Wire,
            MeasureAction::Instrument,
            MeasureAction::Bench(0),
            MeasureAction::Bench(1),
            MeasureAction::CountDumps,
            MeasureAction::Merge,
            MeasureAction::Cleanup,
            MeasureAction::Report,
        ]
    );
    assert_eq!(stage, MeasureStage::Finished);
}

#[test]
fn failure_after_wire_cleans_up_before_giving_up() {
    let (s, a) = measure_step(MeasureStage::Benching(0), 3, MeasureEvent::Failed);
    assert_eq!(a, MeasureAction::Cleanup);
    let (s, a) = measure_step(s, 3, MeasureEvent::Failed);
    assert_eq!(a, MeasureAction::Abort(MeasureFailure::StepFailed));
    assert_eq!(s, MeasureStage::Aborted(MeasureFailure::StepFailed));
    let (_, a) = measure_step(MeasureStage::Collecting, 3, MeasureEvent::Dumps(0));
    assert_eq!(a, MeasureAction::Cleanup);
}

#[test]
fn failures_before_wire_abort_without_cleanup() {
    let (_, a) = measure_step(MeasureStage::Start, 0, MeasureEvent::Done);
    assert_eq!(a, MeasureAction::Abort(MeasureFailure::NoBenches));
    let (_, a) = measure_step(MeasureStage::Wiring, 1, MeasureEvent::Failed);
    assert_eq!(a, MeasureAction::Abort(MeasureFailure::StepFailed));
}

#[test]
fn cleanup_guard_disarm_prevents_drop_cleanup() {
    let mut g = CleanupGuard::new("/ws");
    assert!(g.is_armed());
    g.disarm();
    assert!(!g.is_armed());
    assert_eq!(g.workspace_root(), "/ws");
}

#[test]
fn bench_commands_and_files() {
    assert_eq!(
        bench_build_args("engine", "tx", "/ws/Cargo.toml"),
        vec!["bench", "--no-run", "-p", "engine", "--bench", "tx", "--manifest-path", "/ws/Cargo.toml", "--features", "captrack/telemetry"]
    );
    assert_eq!(
        bench_dump_file("/ws/target/captrack-pgo/dumps", "tx-0f3a9c"),
        "/ws/target/captrack-pgo/dumps/profile-tx-0f3a9c.json"
    );
    assert_eq!(bench_exit_code(Some(Some(3))), 3);
    assert_eq!(bench_exit_code(Some(None)), -1);
    assert_eq!(bench_exit_code(None), -1);
}

#[test]
fn newest_binary_is_picked() {
    assert_eq!(newest(&vec![Some(5), None, Some(9), Some(9)]), 3);
    assert_eq!(newest(&vec![None]), 0);
}

#[test]
fn bench_owner_is_found() {
    let pkgs = vec![
        PackageInfo { name: "a".into(), targets: vec![TargetInfo { name: "tx".into(), kinds: vec!["lib".into()] }] },
        PackageInfo { name: "b".into(), targets: vec![TargetInfo { name: "tx".into(), kinds: vec!["bench".into()] }] },
    ];
    assert_eq!(bench_crate_for(&pkgs, "tx"), Some("b".to_string()));
    assert_eq!(bench_crate_for(&pkgs, "rx"), None);
}
