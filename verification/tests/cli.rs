use clockpin::context::{CmdOutput, Ecosystem, RunCtx, Runner};
use clockpin::report::{list_line, tool_available, OptionsLog, Reporter, Status};
use clockpin::session::{selected_ecosystems, split_detections, RunSession};
use clockpin::updaters::cargo::Cargo;
use clockpin::updaters::docker::Docker;
use clockpin::updaters::github_actions::GithubActions;
use clockpin::updaters::npm::Npm;
use clockpin::updaters::pre_commit::PreCommit;
use clockpin::updaters::python_requirements::PythonRequirements;
use clockpin::updaters::python_uv::PythonUv;
use clockpin::updaters::{all, Detection, Step, UpdateOutcome};

/// What each ecosystem detects in an empty repository at `/empty`.
fn detect_empty(eco: Ecosystem) -> Detection {
    match eco {
        Ecosystem::Uv => PythonUv.detect(vec![]),
        Ecosystem::Requirements => PythonRequirements.detect(),
        Ecosystem::Npm => Npm.detect("/empty/package.json".to_string(), false),
        Ecosystem::Cargo => Cargo.detect("/empty/Cargo.toml".to_string(), false),
        Ecosystem::Docker => Docker.detect(vec![]),
        Ecosystem::Actions => GithubActions.detect(vec![]),
        Ecosystem::PreCommit => PreCommit.detect("/empty/.pre-commit-config.yaml".to_string(), false),
    }
}

/// A runner that must never be asked anything.
struct Untouchable;

impl Runner for Untouchable {
    fn which(&self, program: &str) -> bool {
        panic!("asked for {program}")
    }
    fn run(&self, program: &str, _args: &[&str], _cwd: &str) -> Result<CmdOutput, String> {
        panic!("ran {program}")
    }
}

/// The first step of an updater must be its outcome: nothing to run or write.
fn done(step: Step) -> UpdateOutcome {
    match step {
        Step::Done(o) => o,
        _ => panic!("an empty repository asked for work"),
    }
}

#[test]
fn list_reports_ecosystems_on_empty_repo() {
    let which = |_: &str| false;
    let mut text = String::new();
    for eco in all() {
        let present = matches!(detect_empty(eco), Detection::Present { .. });
        assert!(!present);
        let line = list_line(eco, present, tool_available(&which, eco));
        text.push_str(&line);
        text.push('\n');
    }
    assert!(text.contains("uv"));
    assert!(text.contains("detected=false"));
}

#[test]
fn check_writes_nothing_on_empty_repo() {
    let mut ctx = RunCtx::for_test(vec![], vec![]);
    ctx.repo_root = "/empty".to_string();
    assert!(ctx.dry_run);
    let reporter = Reporter { quiet: false, verbose: false, color: false };
    let header = reporter.header().unwrap();
    assert!(header.contains("continuous lockfile pin updates"));
    let mut jobs = Vec::new();
    for eco in selected_ecosystems(&ctx) {
        jobs.push((eco, detect_empty(eco)));
    }
    let (present, absent) = split_detections(&jobs);
    assert!(present.is_empty());
    assert_eq!(absent.len(), jobs.len());
    let mut session = RunSession::new(&jobs);
    for (eco, det) in &jobs {
        let out = match eco {
            Ecosystem::Uv => done(PythonUv.start(&ctx, det).1),
            Ecosystem::Requirements => PythonRequirements.run(),
            Ecosystem::Npm => Npm.run(&ctx, &Untouchable, det),
            Ecosystem::Cargo => Cargo.run(&ctx, &Untouchable, det),
            Ecosystem::Docker => done(Docker.start(&ctx, det).1),
            Ecosystem::Actions => done(GithubActions.start(&ctx, det).1),
            Ecosystem::PreCommit => PreCommit.run(&ctx, &Untouchable, det),
        };
        assert_eq!(out.status, Status::NotPresent);
        assert!(out.changes.is_empty());
        session.record(&reporter, ctx.is_frozen(*eco), out);
    }
    let (held, _summary, code, log) =
        session.finish(&reporter, "0.1.0".to_string(), ctx.repo_root.clone(), OptionsLog::of(&ctx));
    assert!(held.is_empty());
    assert_eq!(code, 0);
    assert_eq!(log.summary.updated, 0);
}
