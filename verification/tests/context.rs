use clockpin::cli::{EcoArg, FreezeKey, RunArgs};
use clockpin::context::{CmdOutput, Ecosystem, RunCtx};
use clockpin::session::{selected_ecosystems, split_detections};
use clockpin::updaters::Detection;

#[test]
fn ecosystem_keys_roundtrip() {
    for e in Ecosystem::ALL {
        assert_eq!(Ecosystem::from_key(e.key()), Some(e));
    }
    assert_eq!(Ecosystem::from_key("nope"), None);
}

#[test]
fn only_freezable_are_freezable() {
    assert!(Ecosystem::Actions.is_freezable());
    assert!(Ecosystem::PreCommit.is_freezable());
    assert!(Ecosystem::Docker.is_freezable());
    assert!(!Ecosystem::Uv.is_freezable());
    assert!(!Ecosystem::Cargo.is_freezable());
}

#[test]
fn selection_respects_only_then_skip() {
    let ctx = RunCtx::for_test(vec![Ecosystem::Uv, Ecosystem::Cargo], vec![Ecosystem::Cargo]);
    assert!(ctx.selected(Ecosystem::Uv));
    assert!(!ctx.selected(Ecosystem::Cargo)); // skipped even though in only
    assert!(!ctx.selected(Ecosystem::Npm)); // not in only
}

#[test]
fn empty_only_selects_all_but_skip() {
    let ctx = RunCtx::for_test(vec![], vec![Ecosystem::Docker]);
    assert!(ctx.selected(Ecosystem::Uv));
    assert!(!ctx.selected(Ecosystem::Docker));
}

#[test]
fn keys_and_emoji_are_the_documented_ones() {
    assert_eq!(Ecosystem::PreCommit.key(), "pre-commit");
    assert_eq!(Ecosystem::Requirements.key(), "requirements");
    assert_eq!(Ecosystem::Uv.emoji(), Ecosystem::Requirements.emoji());
    assert_eq!(Ecosystem::Cargo.emoji(), "🦀");
}

#[test]
fn cmd_output_ok_only_on_zero_status() {
    let ok = CmdOutput { status: 0, stdout: String::new(), stderr: String::new() };
    let bad = CmdOutput { status: 2, stdout: String::new(), stderr: String::new() };
    assert!(ok.ok());
    assert!(!bad.ok());
}

fn args(freeze: Vec<FreezeKey>, only: Vec<EcoArg>, skip: Vec<EcoArg>) -> RunArgs {
    RunArgs {
        path: None,
        dry_run: false,
        freeze,
        only,
        skip,
        major: true,
        log_json: None,
        verbose: false,
        quiet: false,
        no_color: false,
    }
}

#[test]
fn freeze_all_freezes_exactly_the_freezable_ecosystems() {
    let set = args(vec![FreezeKey::All, FreezeKey::Docker], vec![], vec![]).freeze_set();
    assert_eq!(set.len(), 3);
    for e in Ecosystem::ALL {
        assert_eq!(set.contains(&e), e.is_freezable());
    }
}

#[test]
fn freeze_keys_name_single_tools() {
    let set = args(vec![FreezeKey::PreCommit], vec![], vec![]).freeze_set();
    assert_eq!(set, vec![Ecosystem::PreCommit]);
    assert!(args(vec![], vec![], vec![]).freeze_set().is_empty());
}

#[test]
fn into_ctx_maps_every_option() {
    let a = args(vec![FreezeKey::Actions], vec![EcoArg::Npm, EcoArg::PreCommit], vec![EcoArg::Uv]);
    let ctx = a.into_ctx(true, "/repo".to_string());
    assert_eq!(ctx.repo_root, "/repo");
    assert!(ctx.dry_run);
    assert!(ctx.major);
    assert!(ctx.is_frozen(Ecosystem::Actions));
    assert!(!ctx.is_frozen(Ecosystem::Docker));
    assert_eq!(ctx.only, vec![Ecosystem::Npm, Ecosystem::PreCommit]);
    assert_eq!(ctx.skip, vec![Ecosystem::Uv]);
    assert_eq!(EcoArg::Requirements.to_ecosystem(), Ecosystem::Requirements);
}

#[test]
fn run_visits_selected_ecosystems_in_order() {
    let ctx = RunCtx::for_test(vec![Ecosystem::PreCommit, Ecosystem::Uv, Ecosystem::Docker], vec![Ecosystem::Docker]);
    assert_eq!(selected_ecosystems(&ctx), vec![Ecosystem::Uv, Ecosystem::PreCommit]);
    let all = RunCtx::for_test(vec![], vec![]);
    assert_eq!(selected_ecosystems(&all), Ecosystem::ALL.to_vec());
}

#[test]
fn detections_split_into_present_and_absent() {
    let jobs = vec![
        (Ecosystem::Uv, Detection::Absent { reason: "no pyproject.toml + uv.lock".to_string() }),
        (Ecosystem::Cargo, Detection::Present { targets: vec!["/r/Cargo.toml".to_string()] }),
        (Ecosystem::Docker, Detection::Absent { reason: "no Dockerfile".to_string() }),
    ];
    let (present, absent) = split_detections(&jobs);
    assert_eq!(present, vec![Ecosystem::Cargo]);
    assert_eq!(absent.len(), 2);
    assert_eq!(absent[0].0, Ecosystem::Uv);
    assert_eq!(absent[1].1, "no Dockerfile");
}
