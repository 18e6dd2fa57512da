use clockpin::context::{Ecosystem, RunCtx};
use clockpin::report::{Change, ChangeKind, OptionsLog, Reporter};
use clockpin::session::RunSession;
use clockpin::updaters::{Detection, UpdateOutcome};

fn change(name: &str) -> Change {
    Change { name: name.to_string(), from: "1".to_string(), to: "2".to_string(), kind: ChangeKind::Pin }
}

#[test]
fn session_records_lines_totals_and_log() {
    let jobs = vec![
        (Ecosystem::Cargo, Detection::Present { targets: vec!["/r/Cargo.toml".to_string()] }),
        (Ecosystem::Docker, Detection::Absent { reason: "no Dockerfile".to_string() }),
        (Ecosystem::Actions, Detection::Present { targets: vec!["/r/ci.yml".to_string()] }),
    ];
    let reporter = Reporter { quiet: true, verbose: false, color: false };
    let mut s = RunSession::new(&jobs);
    assert_eq!(s.record(&reporter, false, UpdateOutcome::errored("cargo upgrade failed: boom")).unwrap(),
        "  🦀 cargo       ❌ cargo upgrade failed: boom");
    assert_eq!(s.record(&reporter, false, UpdateOutcome::not_present("no Dockerfile")), None);
    let line = s.record(&reporter, true, UpdateOutcome::applied(vec![change("a/b"), change("c/d")])).unwrap();
    assert!(line.ends_with("a/b 1→2 · c/d 1→2  🔒 frozen"));
    let ctx = RunCtx::for_test(vec![], vec![]);
    let (held, summary, code, log) = s.finish(&reporter, "0.1.0".to_string(), "/r".to_string(), OptionsLog::of(&ctx));
    assert!(held.is_empty());
    assert_eq!(summary, "\n  ✨ updated 2 dependencies across 1 ecosystems · 1 errors");
    assert_eq!(code, 1);
    assert_eq!(log.ecosystems.len(), 3);
    assert!(log.ecosystems[0].detected);
    assert!(!log.ecosystems[1].detected);
    assert_eq!(log.ecosystems[1].status, "not-present");
    assert_eq!(log.ecosystems[2].changes.len(), 2);
    assert_eq!(log.summary.ecosystems_touched, 1);
}

#[test]
fn clean_session_exits_zero() {
    let jobs = vec![(Ecosystem::Npm, Detection::Present { targets: vec!["/r/package.json".to_string()] })];
    let reporter = Reporter { quiet: false, verbose: false, color: false };
    let mut s = RunSession::new(&jobs);
    assert!(s.record(&reporter, false, UpdateOutcome::applied(vec![])).is_some());
    let ctx = RunCtx::for_test(vec![], vec![]);
    let (_, summary, code, _) = s.finish(&reporter, "0.1.0".to_string(), "/r".to_string(), OptionsLog::of(&ctx));
    assert_eq!(code, 0);
    assert_eq!(summary, "\n  ✨ updated 0 dependencies across 0 ecosystems · 0 errors");
}
