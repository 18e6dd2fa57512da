use clockpin::context::{Ecosystem, RunCtx};
use clockpin::report::{
    availability, list_line, tool_available, tool_for, Change, ChangeKind, EcoLog, HeldBackMajor, OptionsLog, Reporter, RunLog, Status,
    SummaryLog,
};
use clockpin::updaters::UpdateOutcome;

fn reporter(quiet: bool, verbose: bool, color: bool) -> Reporter {
    Reporter { quiet, verbose, color }
}

fn change(name: &str, from: &str, to: &str) -> Change {
    Change { name: name.to_string(), from: from.to_string(), to: to.to_string(), kind: ChangeKind::Bump }
}

#[test]
fn status_names_and_glyphs() {
    assert_eq!(Status::Applied.as_str(), "applied");
    assert_eq!(Status::WouldChange.as_str(), "would-change");
    assert_eq!(Status::UpToDate.as_str(), "up-to-date");
    assert_eq!(Status::NotPresent.as_str(), "not-present");
    assert_eq!(Status::Warned.as_str(), "skipped");
    assert_eq!(Status::Errored.as_str(), "error");
    assert_eq!(Status::Applied.glyph(), "✅");
    assert_eq!(Status::Errored.glyph(), "❌");
    assert_eq!(Status::NotPresent.glyph(), "⏭️");
}

#[test]
fn header_plain_and_bold() {
    assert_eq!(reporter(false, false, false).header().unwrap(), "\n  🔒 lockstep · continuous lockfile pin updates\n");
    let bold = reporter(false, false, true).header().unwrap();
    assert!(bold.contains("lockstep"));
    assert_ne!(bold, "\n  🔒 lockstep · continuous lockfile pin updates\n");
    assert_eq!(reporter(true, false, true).header(), None);
}

#[test]
fn detected_lines() {
    let present = vec![Ecosystem::Npm, Ecosystem::Cargo];
    let absent = vec![(Ecosystem::Docker, "no Dockerfile".to_string()), (Ecosystem::Uv, "no pyproject.toml + uv.lock".to_string())];
    let lines = reporter(false, true, false).detected(&present, &absent);
    assert_eq!(lines[0], "  🔎 detected: npm · cargo   (absent: docker, uv)\n");
    assert_eq!(lines[1], "      🐳 docker: no Dockerfile");
    assert_eq!(lines.len(), 3);
    assert_eq!(reporter(false, false, false).detected(&present, &absent).len(), 1);
    assert!(reporter(true, true, false).detected(&present, &absent).is_empty());
}

#[test]
fn line_shows_changes_and_freeze() {
    let out = UpdateOutcome::applied(vec![change("boto3", "1.0", "1.5"), change("ruff", "0.6", "0.7")]);
    let r = reporter(false, false, false);
    assert_eq!(
        r.line(Ecosystem::Uv, &out, true).unwrap(),
        "  🐍 uv          ✅ boto3 1.0→1.5 · ruff 0.6→0.7  🔒 frozen"
    );
    let up = UpdateOutcome::applied(vec![]);
    assert_eq!(r.line(Ecosystem::Requirements, &up, true).unwrap(), "  🐍 requirements ✅ up to date");
    assert_eq!(reporter(true, false, false).line(Ecosystem::Uv, &up, false), None);
}

#[test]
fn line_shows_warnings_and_errors() {
    let r = reporter(true, false, false);
    let mut o = UpdateOutcome::errored("boom");
    o.warnings.push("careful".to_string());
    assert_eq!(r.line(Ecosystem::Cargo, &o, false).unwrap(), "  🦀 cargo       ❌ careful; boom");
    let np = UpdateOutcome::new(Status::NotPresent);
    assert_eq!(reporter(false, false, false).line(Ecosystem::Npm, &np, false).unwrap(), "  📦 npm         ⏭️ not present");
}

#[test]
fn held_back_and_summary() {
    let held = vec![HeldBackMajor {
        ecosystem: "uv".to_string(),
        name: "boto3".to_string(),
        current: "1.43".to_string(),
        latest: "2.0".to_string(),
    }];
    let r = reporter(false, false, false);
    let lines = r.held_back(&held);
    assert_eq!(lines[0], "\n  ⚠️  1 major upgrade(s) held back by a cap:");
    assert_eq!(lines[1], "      boto3 1.43 → 2.0     run with --major to apply");
    assert!(r.held_back(&vec![]).is_empty());
    assert_eq!(r.summary(3, 2, 0), "\n  ✨ updated 3 dependencies across 2 ecosystems · 0 errors");
}

#[test]
fn list_lines() {
    assert_eq!(tool_for(Ecosystem::Docker), "(built-in)");
    assert_eq!(
        list_line(Ecosystem::Cargo, false, true),
        "  🦀 cargo        detected=false tool=cargo available=true"
    );
}

#[test]
fn logs_and_totals() {
    let mut total = SummaryLog::new();
    let out = UpdateOutcome::applied(vec![change("a", "1", "2")]);
    total.record(&out);
    total.record(&UpdateOutcome::errored("x"));
    total.record(&UpdateOutcome::applied(vec![]));
    assert_eq!((total.updated, total.ecosystems_touched, total.errors), (1, 1, 1));
    assert_eq!(total.exit_code(), 1);
    assert_eq!(SummaryLog::new().exit_code(), 0);

    let (log, held) = EcoLog::from_outcome(Ecosystem::PreCommit, true, UpdateOutcome::warned("`pre-commit` not on PATH — skipped"));
    assert_eq!(log.key, "pre-commit");
    assert!(!log.tool_available);
    assert_eq!(log.status, "skipped");
    assert!(held.is_empty());

    let mut ctx = RunCtx::for_test(vec![Ecosystem::Uv], vec![]);
    ctx.freeze = vec![Ecosystem::PreCommit, Ecosystem::Docker, Ecosystem::Actions];
    let opts = OptionsLog::of(&ctx);
    assert_eq!(opts.freeze, vec!["actions".to_string(), "docker".to_string(), "pre-commit".to_string()]);
    assert_eq!(opts.only, vec!["uv".to_string()]);
    assert!(opts.dry_run);

    let run = RunLog::new("0.1.0".to_string(), "/x".to_string(), opts, vec![log], vec![], total);
    assert_eq!(run.tool, "clockpin");
    assert_eq!(run.version, "0.1.0");
    assert_eq!(run.options.freeze[0], "actions");
}

#[test]
fn availability_of_tools() {
    assert!(availability(Ecosystem::Docker, false));
    assert!(!availability(Ecosystem::Cargo, false));
    assert!(availability(Ecosystem::Npm, true));
    let asked = std::cell::RefCell::new(Vec::new());
    let which = |p: &str| {
        asked.borrow_mut().push(p.to_string());
        p == "cargo"
    };
    assert!(tool_available(&which, Ecosystem::Cargo));
    assert!(!tool_available(&which, Ecosystem::Npm));
    assert!(tool_available(&which, Ecosystem::Docker));
    assert_eq!(*asked.borrow(), vec!["cargo".to_string(), "npx".to_string()]);
}
