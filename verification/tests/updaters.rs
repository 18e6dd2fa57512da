use clockpin::context::{CmdOutput, Ecosystem, RunCtx, Runner};
use clockpin::report::{ChangeKind, Status};
use clockpin::updaters::cargo::{upgrade_args, Cargo};
use clockpin::updaters::docker::{rewrite_from, Docker};
use clockpin::updaters::github_actions::{gh_answer, gh_json, rewrite_uses, GithubActions};
use clockpin::registry::{JsonValue, Registry};
use std::cell::RefCell;
use clockpin::updaters::npm::{ncu_args, Npm};
use clockpin::updaters::pre_commit::{autoupdate_args, PreCommit};
use clockpin::updaters::python_requirements::PythonRequirements;
use clockpin::updaters::python_uv::{bump_minimums, locked_versions, LockMap, PythonUv};
use clockpin::updaters::{all, Detection, Event, Step, UpdateOutcome, Updater};

struct FakeRunner {
    fail_on: &'static str,
    found: bool,
}

impl Runner for FakeRunner {
    fn which(&self, _program: &str) -> bool {
        self.found
    }
    fn run(&self, _program: &str, args: &[&str], _cwd: &str) -> Result<CmdOutput, String> {
        let status = if args.iter().any(|a| *a == self.fail_on) { 1 } else { 0 };
        Ok(CmdOutput { status, stdout: String::new(), stderr: "boom".into() })
    }
}

fn ctx(dry_run: bool, freeze: Vec<Ecosystem>) -> RunCtx {
    RunCtx {
        repo_root: "/repo".to_string(),
        dry_run,
        freeze,
        major: false,
        only: Vec::new(),
        skip: Vec::new(),
    }
}

fn present(path: &str) -> Detection {
    Detection::Present { targets: vec![path.to_string()] }
}

fn lock_map(pairs: &[(&str, &str)]) -> LockMap {
    let mut m = LockMap::new();
    for (k, v) in pairs {
        m.insert(k.to_string(), v.to_string());
    }
    m
}

#[test]
fn upgrade_uses_incompatible_only_for_major() {
    assert_eq!(upgrade_args(false), vec!["upgrade"]);
    assert_eq!(upgrade_args(true), vec!["upgrade", "--incompatible"]);
}

#[test]
fn cargo_update_failure_surfaces_as_warning_not_swallowed() {
    let runner = FakeRunner { fail_on: "update", found: true };
    let out = Cargo.run(&ctx(false, vec![]), &runner, &present("/repo/Cargo.toml"));
    assert_eq!(out.status, Status::UpToDate);
    assert!(!out.warnings.is_empty(), "failed cargo update should surface as a warning");
    assert!(out.errors.is_empty());
}

#[test]
fn cargo_outcomes_for_each_situation() {
    let ok = FakeRunner { fail_on: "-", found: true };
    let absent = Detection::Absent { reason: "no Cargo.toml".to_string() };
    let o = Cargo.run(&ctx(false, vec![]), &ok, &absent);
    assert_eq!(o.status, Status::NotPresent);
    assert_eq!(o.warnings, vec!["no Cargo.toml".to_string()]);
    let o = Cargo.run(&ctx(true, vec![]), &ok, &present("/repo/Cargo.toml"));
    assert_eq!(o.status, Status::WouldChange);
    let missing = FakeRunner { fail_on: "-", found: false };
    let o = Cargo.run(&ctx(false, vec![]), &missing, &present("/repo/Cargo.toml"));
    assert_eq!(o.status, Status::Warned);
    assert_eq!(o.warnings, vec!["`cargo` not on PATH — skipped".to_string()]);
    let failing = FakeRunner { fail_on: "upgrade", found: true };
    let o = Cargo.run(&ctx(false, vec![]), &failing, &present("/repo/Cargo.toml"));
    assert_eq!(o.status, Status::Errored);
    assert_eq!(o.errors, vec!["cargo upgrade failed: boom".to_string()]);
    let o = Cargo.run(&ctx(false, vec![]), &ok, &present("/repo/Cargo.toml"));
    assert_eq!(o.status, Status::UpToDate);
    assert!(o.warnings.is_empty());
}

#[test]
fn cargo_without_cargo_edit_is_skipped() {
    let mut c = ctx(false, vec![]);
    c.major = true;
    let (mut m, first) = Cargo.start(&c, &present("/repo/Cargo.toml"));
    assert!(matches!(first, Step::Which(ref p) if p == "cargo"));
    let next = m.step(Event::Found(true));
    match next {
        Step::Run(p, args) => {
            assert_eq!(p, "cargo");
            assert_eq!(args, vec!["upgrade".to_string(), "--incompatible".to_string()]);
        }
        _ => panic!("expected cargo upgrade"),
    }
    let out = CmdOutput { status: 101, stdout: String::new(), stderr: "error: no such command: `upgrade`\n".into() };
    match m.step(Event::Ran(Ok(out))) {
        Step::Done(o) => {
            assert_eq!(o.status, Status::Warned);
            assert_eq!(o.warnings, vec!["`cargo upgrade` unavailable (install cargo-edit) — skipped".to_string()]);
        }
        _ => panic!("expected the end of the run"),
    }
}

#[test]
fn ncu_targets_minor_unless_major() {
    assert_eq!(ncu_args(false), vec!["npm-check-updates", "-u", "--target", "minor"]);
    assert_eq!(ncu_args(true), vec!["npm-check-updates", "-u"]);
}

#[test]
fn npm_install_failure_surfaces_as_warning_not_swallowed() {
    let runner = FakeRunner { fail_on: "install", found: true };
    let out = Npm.run(&ctx(false, vec![]), &runner, &present("/repo/package.json"));
    assert_eq!(out.status, Status::UpToDate);
    assert!(!out.warnings.is_empty(), "failed npm install should surface as a warning");
    assert!(out.errors.is_empty());
}

#[test]
fn npm_check_updates_failure_is_an_error() {
    let runner = FakeRunner { fail_on: "-u", found: true };
    let out = Npm.run(&ctx(false, vec![]), &runner, &present("/repo/package.json"));
    assert_eq!(out.status, Status::Errored);
    assert_eq!(out.errors, vec!["npm-check-updates failed: boom".to_string()]);
}

#[test]
fn args_include_freeze_only_when_frozen() {
    assert_eq!(autoupdate_args(false), vec!["autoupdate"]);
    assert_eq!(autoupdate_args(true), vec!["autoupdate", "--freeze"]);
}

#[test]
fn pre_commit_runs_and_reports() {
    let ok = FakeRunner { fail_on: "-", found: true };
    let o = PreCommit.run(&ctx(false, vec![Ecosystem::PreCommit]), &ok, &present("/repo/.pre-commit-config.yaml"));
    assert_eq!(o.status, Status::UpToDate);
    let bad = FakeRunner { fail_on: "--freeze", found: true };
    let o = PreCommit.run(&ctx(false, vec![Ecosystem::PreCommit]), &bad, &present("/repo/.pre-commit-config.yaml"));
    assert_eq!(o.status, Status::Errored);
    assert_eq!(o.errors, vec!["pre-commit autoupdate failed: boom".to_string()]);
    let o = PreCommit.run(&ctx(false, vec![]), &bad, &present("/repo/.pre-commit-config.yaml"));
    assert_eq!(o.status, Status::UpToDate);
}

// bump 3.13-slim → 3.14-slim; digest only requested when frozen
fn resolve_image(_image: &str, _tag: &str) -> Option<(String, Option<String>)> {
    Some(("3.14-slim".to_string(), Some("sha256:dead".to_string())))
}

#[test]
fn bumps_tag_without_digest_when_not_frozen() {
    let text = "FROM python:3.13-slim\n";
    let (new, changes) = rewrite_from(text, false, resolve_image);
    assert_eq!(new, "FROM python:3.14-slim\n");
    assert_eq!(changes.len(), 1);
}

#[test]
fn appends_digest_when_frozen() {
    let text = "FROM python:3.13-slim\n";
    let (new, _c) = rewrite_from(text, true, resolve_image);
    assert_eq!(new, "FROM python:3.14-slim@sha256:dead\n");
}

#[test]
fn leaves_unresolvable_lines_untouched() {
    fn none(_i: &str, _t: &str) -> Option<(String, Option<String>)> {
        None
    }
    let text = "FROM scratch\nFROM private.reg/x:1\n";
    let (new, changes) = rewrite_from(text, false, none);
    assert_eq!(new, text);
    assert!(changes.is_empty());
}

#[test]
fn docker_keeps_stage_names_and_records_changes() {
    let text = "FROM python:3.13-slim AS build\nRUN true\n";
    let (new, changes) = rewrite_from(text, false, resolve_image);
    assert_eq!(new, "FROM python:3.14-slim AS build\nRUN true\n");
    assert_eq!(changes[0].name, "python");
    assert_eq!(changes[0].from, "3.13-slim");
    assert_eq!(changes[0].to, "3.14-slim");
    assert_eq!(changes[0].kind, ChangeKind::Image);
    let same = |_: &str, _: &str| -> Option<(String, Option<String>)> { Some(("3.13-slim".to_string(), None)) };
    let (unchanged, none) = rewrite_from("FROM python:3.13-slim\n", false, same);
    assert_eq!(unchanged, "FROM python:3.13-slim\n");
    assert!(none.is_empty());
}

#[test]
fn docker_names_and_hosts() {
    assert!(Docker::is_dockerfile("Dockerfile"));
    assert!(Docker::is_dockerfile("Dockerfile.dev"));
    assert!(Docker::is_dockerfile("api.dockerfile"));
    assert!(!Docker::is_dockerfile("Dockerfile-old"));
    assert!(!Docker::is_dockerfile("dockerfile"));
    assert!(Docker::resolvable("python"));
    assert!(Docker::resolvable("grafana/grafana"));
    assert!(!Docker::resolvable("ghcr.io/x/y"));
    assert!(!Docker::resolvable("localhost:5000/x"));
}

// resolver: every action → latest tag "v7.0.0" and sha "b"*40
fn resolve(_owner: &str, _repo: &str) -> Option<(String, String)> {
    Some(("v7.0.0".to_string(), "b".repeat(40)))
}

#[test]
fn frozen_sha_pin_bumps_sha_and_preserves_major_only_comment() {
    let old = "a".repeat(40);
    let text = format!("      - uses: actions/checkout@{old}  # frozen: v6\n");
    let (new, changes) = rewrite_uses(&text, true, resolve);
    let sha = "b".repeat(40);
    // Major-only comment (`v6`) must stay major-only (`v7`), not become `v7.0.0`.
    assert_eq!(new, format!("      - uses: actions/checkout@{sha}  # frozen: v7\n"));
    assert!(!new.contains("v7.0.0"));
    assert_eq!(changes.len(), 1);
    assert!(!new.contains(&old));
}

#[test]
fn tag_pin_bumps_tag_when_not_frozen() {
    let text = "      - uses: actions/checkout@v6\n";
    let (new, _c) = rewrite_uses(text, false, resolve);
    assert_eq!(new, "      - uses: actions/checkout@v7\n");
    assert!(!new.contains("v7.0.0"));
}

#[test]
fn tag_pin_freezes_to_sha_when_frozen() {
    let text = "      - uses: actions/checkout@v6\n";
    let (new, _c) = rewrite_uses(text, true, resolve);
    let sha = "b".repeat(40);
    // Bare tag pin with no existing comment freezes to sha, granularity preserved.
    assert_eq!(new, format!("      - uses: actions/checkout@{sha}  # frozen: v7\n"));
    assert!(!new.contains("v7.0.0"));
}

#[test]
fn non_frozen_leaves_sha_frozen_pin_untouched() {
    let sha = "a".repeat(40);
    let text = format!("      - uses: actions/checkout@{sha}  # frozen: v6\n");
    let (new, changes) = rewrite_uses(&text, false, resolve);
    // Non-frozen mode must never un-freeze an existing SHA pin into a
    // floating tag — that would silently drop a supply-chain pin.
    assert_eq!(new, text);
    assert!(changes.is_empty());
}

#[test]
fn non_frozen_tag_pin_preserves_trailing_comment() {
    let text = "      - uses: actions/checkout@v6  # pin\n";
    let (new, _c) = rewrite_uses(text, false, resolve);
    assert_eq!(new, "      - uses: actions/checkout@v7  # pin\n");
}

#[test]
fn composite_subpath_action_is_left_unchanged() {
    let text = "      - uses: github/codeql-action/analyze@v3\n";
    let (new, changes) = rewrite_uses(text, false, resolve);
    assert_eq!(new, text);
    assert!(changes.is_empty());

    let (new_f, changes_f) = rewrite_uses(text, true, resolve);
    assert_eq!(new_f, text);
    assert!(changes_f.is_empty());
}

#[test]
fn actions_change_records_action_and_versions() {
    let text = "steps:\n  - uses: actions/setup-node@v4.0.1\n";
    let (new, changes) = rewrite_uses(text, false, resolve);
    assert_eq!(new, "steps:\n  - uses: actions/setup-node@v7.0.0\n");
    assert_eq!(changes.len(), 1);
    assert_eq!(changes[0].name, "actions/setup-node");
    assert_eq!(changes[0].from, "v4.0.1");
    assert_eq!(changes[0].to, "v7.0.0");
    assert_eq!(changes[0].kind, ChangeKind::Pin);
    let unresolved = |_: &str, _: &str| -> Option<(String, String)> { None };
    let (same, none) = rewrite_uses(text, true, unresolved);
    assert_eq!(same, text);
    assert!(none.is_empty());
}

#[test]
fn workflow_file_names() {
    assert!(GithubActions::is_workflow("ci.yml"));
    assert!(GithubActions::is_workflow("release.yaml"));
    assert!(GithubActions::is_workflow("a.b.yml"));
    assert!(!GithubActions::is_workflow(".yml"));
    assert!(!GithubActions::is_workflow("ci.yml.bak"));
    assert!(!GithubActions::is_workflow("README"));
}

#[test]
fn reads_locked_versions_normalized() {
    let lock = r#"
version = 1
[[package]]
name = "boto3"
version = "1.43.36"
[[package]]
name = "Types_Requests"
version = "2.33.0.20260518"
"#;
    let m = locked_versions(lock);
    assert_eq!(m.get(&"boto3".to_string()).map(String::as_str), Some("1.43.36"));
    assert_eq!(m.get(&"types-requests".to_string()).map(String::as_str), Some("2.33.0.20260518"));
}

#[test]
fn unparsable_lock_gives_no_versions() {
    let m = locked_versions("this is [not toml");
    assert_eq!(m.get(&"boto3".to_string()), None);
}

#[test]
fn bumps_minimum_preserving_cap_and_extras() {
    let src = r#"
dependencies = [
    "boto3>=1.34.0,<2.0.0",
    "ruff>=0.6.0",
    "boto3-stubs[lambda,logs]>=1.34.0",
]
"#;
    let locked = lock_map(&[("boto3", "1.43.36"), ("ruff", "0.15.19"), ("boto3-stubs", "1.43.36")]);
    let (out, changes) = bump_minimums(src, &locked);
    assert!(out.contains("boto3>=1.43.36,<2.0.0"));
    assert!(out.contains("ruff>=0.15.19"));
    assert!(out.contains("boto3-stubs[lambda,logs]>=1.43.36"));
    assert_eq!(changes.len(), 3);
}

#[test]
fn never_downgrades() {
    let src = "dependencies = [\"boto3>=1.50.0,<2.0.0\"]\n";
    let locked = lock_map(&[("boto3", "1.43.36")]);
    let (out, changes) = bump_minimums(src, &locked);
    assert!(out.contains("boto3>=1.50.0,<2.0.0"));
    assert!(changes.is_empty());
}

#[test]
fn unraised_requirements_keep_their_text() {
    let src = "dependencies = [\"boto3[crt] >= 1.50.0,<2\", \"ruff>=0.6.0\", \"attrs>=23.1\"]\n";
    let locked = lock_map(&[("boto3", "1.43.36"), ("ruff", "0.6.0")]);
    let (out, changes) = bump_minimums(src, &locked);
    assert_eq!(out, src);
    assert!(changes.is_empty());
}

#[test]
fn rest_capture_stops_at_single_quote_and_newline() {
    let src = "dependencies = [\n    'boto3>=1.34.0,<2.0.0',\n    \"ruff>=0.6.0\",\n]\n";
    let locked = lock_map(&[("boto3", "1.43.36"), ("ruff", "0.15.19")]);
    let (out, changes) = bump_minimums(src, &locked);
    assert!(out.contains("boto3>=1.43.36,<2.0.0"));
    assert!(out.contains("ruff>=0.15.19"));
    assert!(out.contains("'boto3>=1.43.36,<2.0.0',"));
    assert_eq!(out.lines().count(), src.lines().count());
    assert_eq!(changes.len(), 2);
}

#[test]
fn bump_uses_normalized_names() {
    let src = "deps = [\"Boto3.Stubs >= 1.0\"]\n";
    let locked = lock_map(&[("boto3-stubs", "1.2")]);
    let (out, changes) = bump_minimums(src, &locked);
    assert_eq!(out, "deps = [\"Boto3.Stubs>=1.2\"]\n");
    assert_eq!(changes[0].name, "Boto3.Stubs");
    assert_eq!(changes[0].from, "1.0");
    assert_eq!(changes[0].to, "1.2");
    assert_eq!(changes[0].kind, ChangeKind::Bump);
}

const PYPROJECT: &str = "dependencies = [\"boto3>=1.0.0\"]\n";
const UV_LOCK: &str = "version = 1\n[[package]]\nname = \"boto3\"\nversion = \"1.5.0\"\n";

/// Drives a uv run: every tool is found, commands whose arguments hold
/// `fail_on` fail, reads give the package above, writes succeed.
fn drive_uv(c: &RunCtx, fail_on: &'static str, written: &mut Vec<(String, String)>) -> UpdateOutcome {
    let runner = FakeRunner { fail_on, found: true };
    let det = Detection::Present { targets: vec!["/repo/pkg".to_string()] };
    let (mut m, mut step) = PythonUv.start(c, &det);
    loop {
        let ev = match step {
            Step::Done(o) => return o,
            Step::Which(p) => Event::Found(runner.which(&p)),
            Step::Run(p, args) => {
                let argv: Vec<&str> = args.iter().map(|a| a.as_str()).collect();
                Event::Ran(runner.run(&p, &argv, &c.repo_root))
            }
            Step::ReadProject(_) => Event::Read(Some(UV_LOCK.to_string()), Some(PYPROJECT.to_string())),
            Step::Write(path, text) => {
                written.push((path, text));
                Event::Wrote(Ok(()))
            }
            Step::Rewrite(_, _) => Event::Unreadable,
        };
        step = m.step(ev);
    }
}

#[test]
fn sync_failure_surfaces_as_warning_not_swallowed() {
    let mut written = Vec::new();
    let out = drive_uv(&ctx(false, vec![]), "sync", &mut written);
    assert_eq!(out.status, Status::Applied);
    assert!(!out.changes.is_empty());
    let c = &out.changes[0];
    assert_eq!((c.from.as_str(), c.to.as_str()), ("1.0.0", "1.5.0"));
    assert!(!out.warnings.is_empty(), "failed uv sync should warn");
    assert!(out.errors.is_empty());
    assert_eq!(written, vec![("/repo/pkg/pyproject.toml".to_string(), "dependencies = [\"boto3>=1.5.0\"]\n".to_string())]);
}

#[test]
fn lock_upgrade_failure_surfaces_as_error() {
    let mut written = Vec::new();
    let out = drive_uv(&ctx(false, vec![]), "--upgrade", &mut written);
    assert_eq!(out.status, Status::Errored);
    assert!(!out.errors.is_empty());
    assert!(out.changes.is_empty());
    assert!(written.is_empty());
}

#[test]
fn uv_dry_run_reports_without_writing() {
    let mut written = Vec::new();
    let out = drive_uv(&ctx(true, vec![]), "-", &mut written);
    assert_eq!(out.status, Status::WouldChange);
    assert_eq!(out.changes.len(), 1);
    assert!(written.is_empty());
}

#[test]
fn every_updater_names_its_ecosystem() {
    assert_eq!(PythonUv.ecosystem(), Ecosystem::Uv);
    assert_eq!(PythonRequirements.ecosystem(), Ecosystem::Requirements);
    assert_eq!(Npm.ecosystem(), Ecosystem::Npm);
    assert_eq!(Cargo.ecosystem(), Ecosystem::Cargo);
    assert_eq!(Docker.ecosystem(), Ecosystem::Docker);
    assert_eq!(GithubActions.ecosystem(), Ecosystem::Actions);
    assert_eq!(PreCommit.ecosystem(), Ecosystem::PreCommit);
    assert_eq!(all(), Ecosystem::ALL.to_vec());
}

#[test]
fn detection_reports_reasons() {
    match Cargo.detect("/r/Cargo.toml".to_string(), false) {
        Detection::Absent { reason } => assert_eq!(reason, "no Cargo.toml"),
        _ => panic!("expected absent"),
    }
    match Npm.detect("/r/package.json".to_string(), true) {
        Detection::Present { targets } => assert_eq!(targets, vec!["/r/package.json".to_string()]),
        _ => panic!("expected present"),
    }
    match Docker.detect(vec![]) {
        Detection::Absent { reason } => assert_eq!(reason, "no Dockerfile"),
        _ => panic!("expected absent"),
    }
    match PythonRequirements.detect() {
        Detection::Absent { reason } => assert_eq!(reason, "not implemented"),
        _ => panic!("expected absent"),
    }
    let o = PythonRequirements.run();
    assert_eq!(o.status, Status::NotPresent);
    assert_eq!(o.warnings, vec!["not implemented".to_string()]);
}

#[test]
fn outcome_constructors() {
    assert_eq!(UpdateOutcome::applied(vec![]).status, Status::UpToDate);
    assert_eq!(UpdateOutcome::warned("w").warnings, vec!["w".to_string()]);
    assert_eq!(UpdateOutcome::errored("e").errors, vec!["e".to_string()]);
    assert_eq!(UpdateOutcome::not_present("n").status, Status::NotPresent);
    assert!(UpdateOutcome::new(Status::WouldChange).changes.is_empty());
}

#[test]
fn docker_resolve_asks_the_hub() {
    let seen: RefCell<Vec<String>> = RefCell::new(Vec::new());
    let reg = Registry { docker_base: "https://hub".to_string(), ..Registry::default() };
    let no_auth = |_: &str, _: &str| -> Option<JsonValue> { None };
    let no_digest = |_: &str, _: &str| -> Option<String> { None };
    let fetch = |url: &str| -> Option<JsonValue> {
        seen.borrow_mut().push(url.to_string());
        if url.ends_with("ordering=last_updated") {
            let tags = ["3.13-slim", "3.13.5-slim", "3.14-slim"]
                .iter()
                .map(|n| JsonValue::Object(vec![("name".to_string(), JsonValue::Str(n.to_string()))]))
                .collect();
            Some(JsonValue::Object(vec![("results".to_string(), JsonValue::Array(tags))]))
        } else {
            Some(JsonValue::Object(vec![("digest".to_string(), JsonValue::Str("sha256:feed".to_string()))]))
        }
    };
    assert_eq!(
        Docker::resolve(&reg, &fetch, &no_auth, &no_digest, "python", "3.13-slim", true),
        Some(("3.13.5-slim".to_string(), Some("sha256:feed".to_string())))
    );
    assert_eq!(
        seen.borrow().clone(),
        vec![
            "https://hub/v2/repositories/library/python/tags?page_size=100&ordering=last_updated".to_string(),
            "https://hub/v2/repositories/library/python/tags/3.13.5-slim".to_string(),
        ]
    );
    assert_eq!(
        Docker::resolve(&reg, &fetch, &no_auth, &no_digest, "python", "3.13-slim", false),
        Some(("3.13.5-slim".to_string(), None))
    );
    assert_eq!(Docker::resolve(&reg, &fetch, &no_auth, &no_digest, "quay.io/o/python", "3.13-slim", true), None);
    let nothing = |_: &str| -> Option<JsonValue> { None };
    assert_eq!(Docker::resolve(&reg, &nothing, &no_auth, &no_digest, "python", "3.13-slim", true), None);
}

#[test]
fn gh_answers_are_trimmed_output_of_successful_calls() {
    let out = |status: i32, stdout: &str| CmdOutput { status, stdout: stdout.to_string(), stderr: String::new() };
    assert_eq!(gh_answer(Ok(out(0, "  v1.2.0\n"))).as_deref(), Some("v1.2.0"));
    assert_eq!(gh_answer(Ok(out(1, "v1.2.0"))), None);
    assert_eq!(gh_answer(Ok(out(0, " \n"))), None);
    assert_eq!(gh_answer(Err("no gh".to_string())), None);
}

struct GhRunner;

impl Runner for GhRunner {
    fn which(&self, _program: &str) -> bool {
        true
    }
    fn run(&self, program: &str, args: &[&str], _cwd: &str) -> Result<CmdOutput, String> {
        assert_eq!(program, "gh");
        let stdout = if args[1] == "repos/actions/checkout/releases/latest" && args[3] == ".tag_name" {
            "v7.0.0\n".to_string()
        } else if args[1] == "repos/actions/checkout/commits/v7.0.0" && args[3] == ".sha" {
            "b".repeat(40)
        } else if args[1] == "repos/actions/cache/tags" && args[3] == ".[].name" {
            "main\nv2.0.0\nv10.1.0\nv9\nnightly\n".to_string()
        } else if args[1] == "repos/actions/cache/commits/v10.1.0" && args[3] == ".sha" {
            "c".repeat(40)
        } else {
            String::new()
        };
        Ok(CmdOutput { status: 0, stdout, stderr: String::new() })
    }
}

#[test]
fn gh_resolve_reads_release_then_commit() {
    let gh = |args: &[&str]| GhRunner.run("gh", args, "/repo");
    assert_eq!(
        GithubActions::gh_resolve(&gh, "actions", "checkout"),
        Some(("v7.0.0".to_string(), "b".repeat(40)))
    );
    // no latest release: the newest tag that starts with a major number
    assert_eq!(
        GithubActions::gh_resolve(&gh, "actions", "cache"),
        Some(("v10.1.0".to_string(), "c".repeat(40)))
    );
    assert_eq!(GithubActions::gh_resolve(&gh, "actions", "setup-go"), None);
}

#[test]
fn gh_json_reads_the_answer_to_its_arguments() {
    let gh = |args: &[&str]| GhRunner.run("gh", args, "/repo");
    let args = ["api", "repos/actions/checkout/releases/latest", "--jq", ".tag_name"];
    assert_eq!(gh_json(&gh, &args).as_deref(), Some("v7.0.0"));
    let args = ["api", "repos/actions/checkout/releases/latest", "--jq", ".name"];
    assert_eq!(gh_json(&gh, &args), None);
}

#[test]
fn empty_lock_changes_nothing() {
    let src = "dependencies = [\"boto3>=1.0\", \"ruff>=0.1\"]\n";
    let (out, changes) = bump_minimums(src, &LockMap::new());
    assert_eq!(out, src);
    assert!(changes.is_empty());
}

#[test]
fn each_pin_changes_at_most_once() {
    let text = "- uses: actions/checkout@v6\n- uses: actions/cache@v3.0.0\n- uses: ./local\n";
    let (new, changes) = rewrite_uses(text, false, resolve);
    assert_eq!(changes.len(), 2);
    assert_eq!(new, "- uses: actions/checkout@v7\n- uses: actions/cache@v7.0.0\n- uses: ./local\n");
}

#[test]
fn uses_pins_follow_the_pattern_edges() {
    // no blank after the colon
    let (new, _) = rewrite_uses("uses:actions/checkout@v6\n", false, resolve);
    assert_eq!(new, "uses:actions/checkout@v7\n");
    // `uses:` must start a word
    let (same, none) = rewrite_uses("reuses: actions/checkout@v6\n", false, resolve);
    assert_eq!(same, "reuses: actions/checkout@v6\n");
    assert!(none.is_empty());
    // a frozen pin's comment may sit on the next line
    let text = "uses: actions/checkout@v6\n  # v5\n";
    let sha = "b".repeat(40);
    let (frozen, changes) = rewrite_uses(text, true, resolve);
    assert_eq!(frozen, format!("uses: actions/checkout@{sha}  # frozen: v7\n"));
    assert_eq!(changes[0].from, "v5");
}

#[test]
fn from_lines_follow_the_pattern_edges() {
    let (new, _) = rewrite_from("FROM --platform=linux/amd64 python:3.13-slim\n", false, resolve_image);
    assert_eq!(new, "FROM --platform=linux/amd64 python:3.13-slim\n");
    let (new, _) = rewrite_from("RUN echo\nFROM   python:3.13-slim   \n", false, resolve_image);
    assert_eq!(new, "RUN echo\nFROM   python:3.14-slim\n");
    let (new, _) = rewrite_from("FROM python:3.13-slim@sha256:abc123 as base\n", true, resolve_image);
    assert_eq!(new, "FROM python:3.14-slim@sha256:dead as base\n");
    let (new, _) = rewrite_from(" FROM python:3.13-slim\n", false, resolve_image);
    assert_eq!(new, " FROM python:3.13-slim\n");
}

#[test]
fn docker_resolve_asks_ghcr_for_ghcr_images() {
    let reg = Registry { ghcr_base: "https://ghcr".to_string(), ..Registry::default() };
    let seen: RefCell<Vec<String>> = RefCell::new(Vec::new());
    let fetch = |url: &str| -> Option<JsonValue> {
        seen.borrow_mut().push(url.to_string());
        Some(JsonValue::Object(vec![("token".to_string(), JsonValue::Str("tok".to_string()))]))
    };
    let fetch_auth = |url: &str, token: &str| -> Option<JsonValue> {
        seen.borrow_mut().push(format!("{url} {token}"));
        let tags = ["1.2", "1.2.9", "1.3"].iter().map(|t| JsonValue::Str(t.to_string())).collect();
        Some(JsonValue::Object(vec![("tags".to_string(), JsonValue::Array(tags))]))
    };
    let digest = |url: &str, token: &str| -> Option<String> {
        seen.borrow_mut().push(format!("{url} {token}"));
        Some("sha256:beef".to_string())
    };
    assert_eq!(
        Docker::resolve(&reg, &fetch, &fetch_auth, &digest, "ghcr.io/owner/img", "1.2", true),
        Some(("1.2.9".to_string(), Some("sha256:beef".to_string())))
    );
    assert_eq!(
        seen.borrow().clone(),
        vec![
            "https://ghcr/token?scope=repository:owner/img:pull".to_string(),
            "https://ghcr/v2/owner/img/tags/list tok".to_string(),
            "https://ghcr/v2/owner/img/manifests/1.2.9 tok".to_string(),
        ]
    );
    assert_eq!(
        Docker::resolve(&reg, &fetch, &fetch_auth, &digest, "ghcr.io/owner/img", "1.2", false),
        Some(("1.2.9".to_string(), None))
    );
    let no_token = |_: &str| -> Option<JsonValue> { Some(JsonValue::Null) };
    assert_eq!(Docker::resolve(&reg, &no_token, &fetch_auth, &digest, "ghcr.io/owner/img", "1.2", true), None);
}
