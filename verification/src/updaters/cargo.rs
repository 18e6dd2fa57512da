//! Cargo: `cargo upgrade` (from cargo-edit) bumps Cargo.toml; `cargo update`
//! refreshes Cargo.lock within the new bounds. `--major` allows incompatible bumps.

use vstd::prelude::*;

use crate::context::{run_command, CmdOutput, Ecosystem, Runner, RunCtx};
use crate::report::Status;
use crate::text::{concat, contains, seq_contains, trim, trimmed};
use crate::updaters::{
    applied_view, bare, errored_view, owned_args, strings_view, touches_repo, warned_view, OutcomeView,
    detect_file, detected_file, Detection, Event, Step, StepView, UpdateOutcome, Updater,
};

verus! {

/// The Cargo updater.
pub struct Cargo;

impl Updater for Cargo {
    fn ecosystem(&self) -> (e: Ecosystem)
        ensures
            e == Ecosystem::Cargo,
    {
        Ecosystem::Cargo
    }
}

impl Cargo {
    /// Present with the `Cargo.toml` at the root when it is a file.
    pub fn detect(&self, manifest: String, is_file: bool) -> (d: Detection)
        ensures
            detected_file(d, manifest@, is_file, "no Cargo.toml"@),
    {
        detect_file(manifest, is_file, "no Cargo.toml")
    }
}

/// The arguments of `cargo upgrade`.
pub open spec fn upgrade_args_of(major: bool) -> Seq<Seq<char>> {
    if major {
        seq!["upgrade"@, "--incompatible"@]
    } else {
        seq!["upgrade"@]
    }
}

/// The arguments of `cargo upgrade`: `--incompatible` only for `--major`.
pub fn upgrade_args(major: bool) -> (r: Vec<&'static str>)
    ensures
        r@.map_values(|s: &str| s@) == upgrade_args_of(major),
{
    let r = if major {
        vec!["upgrade", "--incompatible"]
    } else {
        vec!["upgrade"]
    };
    assert(r@.map_values(|s: &str| s@) =~= upgrade_args_of(major));
    r
}

pub open spec fn msg_no_cargo() -> Seq<char> {
    "`cargo` not on PATH — skipped"@
}

pub open spec fn msg_no_cargo_edit() -> Seq<char> {
    "`cargo upgrade` unavailable (install cargo-edit) — skipped"@
}

/// Where a Cargo run stands.
#[derive(Clone, Copy, PartialEq, Eq, Structural)]
pub enum CargoPhase {
    AwaitWhich,
    AwaitUpgrade,
    AwaitUpdate,
    Finished,
}

/// A Cargo run in progress.
pub struct CargoRun {
    pub phase: CargoPhase,
    pub dry_run: bool,
    pub major: bool,
}

/// How many steps a run in `phase` may still take.
pub open spec fn cargo_rank(phase: CargoPhase) -> nat {
    match phase {
        CargoPhase::AwaitWhich => 3,
        CargoPhase::AwaitUpgrade => 2,
        CargoPhase::AwaitUpdate => 1,
        CargoPhase::Finished => 0,
    }
}

/// The step a run in `phase` has asked for is of the right kind.
pub open spec fn cargo_step_fits(phase: CargoPhase, s: StepView) -> bool {
    match phase {
        CargoPhase::AwaitWhich => s is Which,
        CargoPhase::AwaitUpgrade | CargoPhase::AwaitUpdate => s is Run,
        CargoPhase::Finished => s is Done,
    }
}

impl Cargo {
    /// Starts a Cargo run: asks whether `cargo` is on PATH, unless there is no
    /// Cargo.toml.
    pub fn start(&self, ctx: &RunCtx, det: &Detection) -> (r: (CargoRun, Step))
        ensures
            r.0.dry_run == ctx.dry_run,
            r.0.major == ctx.major,
            cargo_step_fits(r.0.phase, r.1@),
            r.0.phase == CargoPhase::AwaitWhich || r.0.phase == CargoPhase::Finished,
            det is Absent ==> r.1@ == StepView::Done(warned_view(Status::NotPresent, "no Cargo.toml"@)),
            det is Present ==> r.1@ == StepView::Which("cargo"@) && r.0.phase == CargoPhase::AwaitWhich,
    {
        let run = CargoRun { phase: CargoPhase::AwaitWhich, dry_run: ctx.dry_run, major: ctx.major };
        match det {
            Detection::Absent { .. } => (
                CargoRun { phase: CargoPhase::Finished, ..run },
                Step::Done(UpdateOutcome::not_present("no Cargo.toml")),
            ),
            Detection::Present { .. } => (run, Step::Which("cargo".to_owned())),
        }
    }

    /// Drives a whole Cargo run with `runner`, every command in the
    /// repository root. The outcome is what [`CargoRun::step`] answers to
    /// whatever the runner answered: whether `cargo` was found, then what
    /// `cargo upgrade` and `cargo update` gave.
    pub fn run<R: Runner>(&self, ctx: &RunCtx, runner: &R, det: &Detection) -> (o: UpdateOutcome)
        ensures
            exists|found: bool, upgrade: Result<CmdOutput, String>, update: Result<CmdOutput, String>|
                o@ == #[trigger] cargo_outcome(
                    det is Present,
                    ctx.dry_run,
                    found,
                    upgrade,
                    update,
                ),
    {
        let ghost present = det is Present;
        let ghost mut found: bool = false;
        let ghost mut upgrade: Result<CmdOutput, String> = arbitrary();
        let ghost mut update: Result<CmdOutput, String> = arbitrary();
        let (mut m, step) = self.start(ctx, det);
        let p = match step {
            Step::Done(o) => {
                assert(o@ == cargo_outcome(present, ctx.dry_run, found, upgrade, update));
                return o;
            },
            Step::Which(p) => p,
            _ => {
                assert(false);
                return UpdateOutcome::new(Status::Errored);
            },
        };
        let on_path = runner.which(p.as_str());
        proof {
            found = on_path;
        }
        let step = m.step(Event::Found(on_path));
        let (p, args) = match step {
            Step::Done(o) => {
                assert(o@ == cargo_outcome(present, ctx.dry_run, found, upgrade, update));
                return o;
            },
            Step::Run(p, args) => (p, args),
            _ => {
                assert(false);
                return UpdateOutcome::new(Status::Errored);
            },
        };
        let res = run_command(runner, &p, &args, ctx.repo_root.as_str());
        proof {
            upgrade = res;
        }
        let step = m.step(Event::Ran(res));
        let (p, args) = match step {
            Step::Done(o) => {
                assert(o@ == cargo_outcome(present, ctx.dry_run, found, upgrade, update));
                return o;
            },
            Step::Run(p, args) => (p, args),
            _ => {
                assert(false);
                return UpdateOutcome::new(Status::Errored);
            },
        };
        let res = run_command(runner, &p, &args, ctx.repo_root.as_str());
        proof {
            update = res;
        }
        let step = m.step(Event::Ran(res));
        match step {
            Step::Done(o) => {
                assert(o@ == cargo_outcome(present, ctx.dry_run, found, upgrade, update));
                o
            },
            _ => {
                assert(false);
                UpdateOutcome::new(Status::Errored)
            },
        }
    }
}

/// The outcome of a Cargo run given what its tools answered: whether `cargo`
/// is on PATH (`found`), then what `cargo upgrade` (`--incompatible` under
/// `--major`) and `cargo update` gave. Nothing to do without a Cargo.toml;
/// skipped without `cargo`; would-change in a dry run.
pub open spec fn cargo_outcome(
    present: bool,
    dry_run: bool,
    found: bool,
    upgrade: Result<CmdOutput, String>,
    update: Result<CmdOutput, String>,
) -> OutcomeView {
    if !present {
        warned_view(Status::NotPresent, "no Cargo.toml"@)
    } else if !found {
        warned_view(Status::Warned, msg_no_cargo())
    } else if dry_run {
        bare(Status::WouldChange)
    } else {
        match upgrade {
            Ok(o) => if o.status == 0 {
                match update {
                    Ok(u) => if u.status == 0 {
                        applied_view(seq![])
                    } else {
                        warned_view(Status::UpToDate, "cargo update failed: "@ + trimmed(u.stderr@))
                    },
                    Err(e) => warned_view(Status::UpToDate, e@),
                }
            } else if seq_contains(o.stderr@, "no such"@) || seq_contains(
                o.stderr@,
                "not installed"@,
            ) {
                warned_view(Status::Warned, msg_no_cargo_edit())
            } else {
                errored_view("cargo upgrade failed: "@ + trimmed(o.stderr@))
            },
            Err(e) => errored_view(e@),
        }
    }
}

impl CargoRun {
    /// Answers the last step and returns the next one.
    pub fn step(&mut self, ev: Event) -> (r: Step)
        requires
            old(self).phase != CargoPhase::Finished,
            old(self).phase == CargoPhase::AwaitWhich ==> ev is Found,
            old(self).phase != CargoPhase::AwaitWhich ==> ev is Ran,
            old(self).dry_run ==> old(self).phase == CargoPhase::AwaitWhich,
        ensures
            final(self).dry_run == old(self).dry_run,
            final(self).major == old(self).major,
            cargo_step_fits(final(self).phase, r@),
            cargo_rank(final(self).phase) < cargo_rank(old(self).phase),
            old(self).dry_run ==> !touches_repo(r@) && final(self).phase == CargoPhase::Finished,
            r matches Step::Done(o) ==> o@.changes.len() == 0,
            old(self).dry_run ==> (r matches Step::Done(o) ==> o.status != Status::Applied && o.status
                != Status::Errored),
            old(self).phase == CargoPhase::AwaitWhich ==> {
                &&& ev == Event::Found(false) ==> r@ == StepView::Done(
                    warned_view(Status::Warned, msg_no_cargo()),
                )
                &&& ev == Event::Found(true) && old(self).dry_run ==> r@ == StepView::Done(
                    bare(Status::WouldChange),
                )
                &&& ev == Event::Found(true) && !old(self).dry_run ==> r@ == StepView::Run(
                    "cargo"@,
                    upgrade_args_of(old(self).major),
                ) && final(self).phase == CargoPhase::AwaitUpgrade
            },
            old(self).phase == CargoPhase::AwaitUpgrade ==> match ev {
                Event::Ran(Ok(o)) => if o.status == 0 {
                    r@ == StepView::Run("cargo"@, seq!["update"@]) && final(self).phase
                        == CargoPhase::AwaitUpdate
                } else if seq_contains(o.stderr@, "no such"@) || seq_contains(
                    o.stderr@,
                    "not installed"@,
                ) {
                    r@ == StepView::Done(warned_view(Status::Warned, msg_no_cargo_edit()))
                } else {
                    r@ == StepView::Done(
                        errored_view("cargo upgrade failed: "@ + trimmed(o.stderr@)),
                    )
                },
                Event::Ran(Err(e)) => r@ == StepView::Done(errored_view(e@)),
                _ => true,
            },
            old(self).phase == CargoPhase::AwaitUpdate ==> match ev {
                Event::Ran(Ok(o)) => if o.status == 0 {
                    r@ == StepView::Done(applied_view(seq![]))
                } else {
                    r@ == StepView::Done(
                        warned_view(Status::UpToDate, "cargo update failed: "@ + trimmed(o.stderr@)),
                    )
                },
                Event::Ran(Err(e)) => r@ == StepView::Done(warned_view(Status::UpToDate, e@)),
                _ => true,
            },
    {
        match self.phase {
            CargoPhase::AwaitWhich => {
                let found = match ev {
                    Event::Found(f) => f,
                    _ => false,
                };
                if !found {
                    self.phase = CargoPhase::Finished;
                    return Step::Done(UpdateOutcome::warned("`cargo` not on PATH — skipped"));
                }
                if self.dry_run {
                    self.phase = CargoPhase::Finished;
                    return Step::Done(UpdateOutcome::new(Status::WouldChange));
                }
                self.phase = CargoPhase::AwaitUpgrade;
                let args = upgrade_args(self.major);
                Step::Run("cargo".to_owned(), owned_args(args.as_slice()))
            },
            CargoPhase::AwaitUpgrade => {
                self.phase = CargoPhase::Finished;
                match ev {
                    Event::Ran(Ok(o)) => {
                        if o.ok() {
                            self.phase = CargoPhase::AwaitUpdate;
                            let args = vec!["update"];
                            let owned = owned_args(args.as_slice());
                            assert(strings_view(owned@) =~= seq!["update"@]);
                            Step::Run("cargo".to_owned(), owned)
                        } else if contains(o.stderr.as_str(), "no such") || contains(
                            o.stderr.as_str(),
                            "not installed",
                        ) {
                            Step::Done(
                                UpdateOutcome::warned(
                                    "`cargo upgrade` unavailable (install cargo-edit) — skipped",
                                ),
                            )
                        } else {
                            let t = trim(o.stderr.as_str());
                            let msg = concat("cargo upgrade failed: ", t.as_str());
                            Step::Done(UpdateOutcome::errored(msg.as_str()))
                        }
                    },
                    Event::Ran(Err(e)) => Step::Done(UpdateOutcome::errored(e.as_str())),
                    _ => Step::Done(UpdateOutcome::new(Status::Errored)),
                }
            },
            _ => {
                self.phase = CargoPhase::Finished;
                let mut out = UpdateOutcome::applied(Vec::new());
                assert(out@.changes =~= seq![]);
                assert(out@ == applied_view(seq![]));
                match ev {
                    Event::Ran(Ok(o)) => {
                        if !o.ok() {
                            let t = trim(o.stderr.as_str());
                            let msg = concat("cargo update failed: ", t.as_str());
                            let ghost mv = msg@;
                            out.warnings.push(msg);
                            assert(out@.warnings =~= seq![mv]);
                        }
                    },
                    Event::Ran(Err(e)) => {
                        let ghost ev_ = e@;
                        out.warnings.push(e);
                        assert(out@.warnings =~= seq![ev_]);
                    },
                    _ => {},
                }
                Step::Done(out)
            },
        }
    }
}

} // verus!
