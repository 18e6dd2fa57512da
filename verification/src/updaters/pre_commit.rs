//! pre-commit hooks via `pre-commit autoupdate` (+ `--freeze` when frozen).

use vstd::prelude::*;

use crate::context::{run_command, CmdOutput, Ecosystem, Runner, RunCtx};
use crate::report::Status;
use crate::text::{concat, trim, trimmed};
use crate::updaters::{
    applied_view, bare, errored_view, owned_args, touches_repo, warned_view, Detection, Event, OutcomeView,
    Step, StepView, UpdateOutcome, Updater, detect_file, detected_file,
};

verus! {

/// The pre-commit updater.
pub struct PreCommit;

impl Updater for PreCommit {
    fn ecosystem(&self) -> (e: Ecosystem)
        ensures
            e == Ecosystem::PreCommit,
    {
        Ecosystem::PreCommit
    }
}

impl PreCommit {
    /// Present with the `.pre-commit-config.yaml` at the root when it is a file.
    pub fn detect(&self, cfg: String, is_file: bool) -> (d: Detection)
        ensures
            detected_file(d, cfg@, is_file, "no .pre-commit-config.yaml"@),
    {
        detect_file(cfg, is_file, "no .pre-commit-config.yaml")
    }
}

/// The arguments of `pre-commit`.
pub open spec fn autoupdate_args_of(frozen: bool) -> Seq<Seq<char>> {
    if frozen {
        seq!["autoupdate"@, "--freeze"@]
    } else {
        seq!["autoupdate"@]
    }
}

/// The arguments of `pre-commit`: `--freeze` only when frozen.
pub fn autoupdate_args(frozen: bool) -> (r: Vec<&'static str>)
    ensures
        r@.map_values(|s: &str| s@) == autoupdate_args_of(frozen),
{
    let r = if frozen {
        vec!["autoupdate", "--freeze"]
    } else {
        vec!["autoupdate"]
    };
    assert(r@.map_values(|s: &str| s@) =~= autoupdate_args_of(frozen));
    r
}

pub open spec fn msg_no_pre_commit() -> Seq<char> {
    "`pre-commit` not on PATH — skipped"@
}

/// Where a pre-commit run stands.
#[derive(Clone, Copy, PartialEq, Eq, Structural)]
pub enum PreCommitPhase {
    AwaitWhich,
    AwaitAutoupdate,
    Finished,
}

/// A pre-commit run in progress.
pub struct PreCommitRun {
    pub phase: PreCommitPhase,
    pub dry_run: bool,
    pub frozen: bool,
}

/// How many steps a run in `phase` may still take.
pub open spec fn pre_commit_rank(phase: PreCommitPhase) -> nat {
    match phase {
        PreCommitPhase::AwaitWhich => 2,
        PreCommitPhase::AwaitAutoupdate => 1,
        PreCommitPhase::Finished => 0,
    }
}

/// The step a run in `phase` has asked for is of the right kind.
pub open spec fn pre_commit_step_fits(phase: PreCommitPhase, s: StepView) -> bool {
    match phase {
        PreCommitPhase::AwaitWhich => s is Which,
        PreCommitPhase::AwaitAutoupdate => s is Run,
        PreCommitPhase::Finished => s is Done,
    }
}

impl PreCommit {
    /// Starts a pre-commit run: asks whether `pre-commit` is on PATH, unless
    /// there is no .pre-commit-config.yaml.
    pub fn start(&self, ctx: &RunCtx, det: &Detection) -> (r: (PreCommitRun, Step))
        ensures
            r.0.dry_run == ctx.dry_run,
            r.0.frozen == ctx.freeze@.contains(Ecosystem::PreCommit),
            pre_commit_step_fits(r.0.phase, r.1@),
            r.0.phase == PreCommitPhase::AwaitWhich || r.0.phase == PreCommitPhase::Finished,
            det is Absent ==> r.1@ == StepView::Done(
                warned_view(Status::NotPresent, "no .pre-commit-config.yaml"@),
            ),
            det is Present ==> r.1@ == StepView::Which("pre-commit"@) && r.0.phase
                == PreCommitPhase::AwaitWhich,
    {
        let run = PreCommitRun {
            phase: PreCommitPhase::AwaitWhich,
            dry_run: ctx.dry_run,
            frozen: ctx.is_frozen(Ecosystem::PreCommit),
        };
        match det {
            Detection::Absent { .. } => (
                PreCommitRun { phase: PreCommitPhase::Finished, ..run },
                Step::Done(UpdateOutcome::not_present("no .pre-commit-config.yaml")),
            ),
            Detection::Present { .. } => (run, Step::Which("pre-commit".to_owned())),
        }
    }

    /// Drives a whole pre-commit run with `runner`, the command in the
    /// repository root. The outcome is what [`PreCommitRun::step`] answers to
    /// whatever the runner answered: whether `pre-commit` was found, then what
    /// `pre-commit autoupdate` gave.
    pub fn run<R: Runner>(&self, ctx: &RunCtx, runner: &R, det: &Detection) -> (o: UpdateOutcome)
        ensures
            exists|found: bool, autoupdate: Result<CmdOutput, String>|
                o@ == #[trigger] pre_commit_outcome(det is Present, ctx.dry_run, found, autoupdate),
    {
        let ghost present = det is Present;
        let ghost mut found: bool = false;
        let ghost mut autoupdate: Result<CmdOutput, String> = arbitrary();
        let (mut m, step) = self.start(ctx, det);
        let p = match step {
            Step::Done(o) => {
                assert(o@ == pre_commit_outcome(present, ctx.dry_run, found, autoupdate));
                return o;
            },
            Step::Which(p) => p,
            _ => {
                assert(false);
                return UpdateOutcome::new(Status::Errored);
            },
        };
        let on_path = runner.which(p.as_str());
        proof {
            found = on_path;
        }
        let step = m.step(Event::Found(on_path));
        let (p, args) = match step {
            Step::Done(o) => {
                assert(o@ == pre_commit_outcome(present, ctx.dry_run, found, autoupdate));
                return o;
            },
            Step::Run(p, args) => (p, args),
            _ => {
                assert(false);
                return UpdateOutcome::new(Status::Errored);
            },
        };
        let res = run_command(runner, &p, &args, ctx.repo_root.as_str());
        proof {
            autoupdate = res;
        }
        let step = m.step(Event::Ran(res));
        match step {
            Step::Done(o) => {
                assert(o@ == pre_commit_outcome(present, ctx.dry_run, found, autoupdate));
                o
            },
            _ => {
                assert(false);
                UpdateOutcome::new(Status::Errored)
            },
        }
    }
}

/// The outcome of a pre-commit run given what its tool answered: whether
/// `pre-commit` is on PATH (`found`), then what `pre-commit autoupdate` gave.
/// Nothing to do without a config; skipped without `pre-commit`;
/// would-change in a dry run.
pub open spec fn pre_commit_outcome(
    present: bool,
    dry_run: bool,
    found: bool,
    autoupdate: Result<CmdOutput, String>,
) -> OutcomeView {
    if !present {
        warned_view(Status::NotPresent, "no .pre-commit-config.yaml"@)
    } else if !found {
        warned_view(Status::Warned, msg_no_pre_commit())
    } else if dry_run {
        bare(Status::WouldChange)
    } else {
        match autoupdate {
            Ok(o) => if o.status == 0 {
                applied_view(seq![])
            } else {
                errored_view("pre-commit autoupdate failed: "@ + trimmed(o.stderr@))
            },
            Err(e) => errored_view(e@),
        }
    }
}

impl PreCommitRun {
    /// Answers the last step and returns the next one.
    pub fn step(&mut self, ev: Event) -> (r: Step)
        requires
            old(self).phase != PreCommitPhase::Finished,
            old(self).phase == PreCommitPhase::AwaitWhich ==> ev is Found,
            old(self).phase == PreCommitPhase::AwaitAutoupdate ==> ev is Ran,
            old(self).dry_run ==> old(self).phase == PreCommitPhase::AwaitWhich,
        ensures
            final(self).dry_run == old(self).dry_run,
            final(self).frozen == old(self).frozen,
            pre_commit_step_fits(final(self).phase, r@),
            pre_commit_rank(final(self).phase) < pre_commit_rank(old(self).phase),
            old(self).dry_run ==> !touches_repo(r@) && final(self).phase == PreCommitPhase::Finished,
            r matches Step::Done(o) ==> o@.changes.len() == 0,
            old(self).dry_run ==> (r matches Step::Done(o) ==> o.status != Status::Applied && o.status
                != Status::Errored),
            old(self).phase == PreCommitPhase::AwaitWhich ==> {
                &&& ev == Event::Found(false) ==> r@ == StepView::Done(
                    warned_view(Status::Warned, msg_no_pre_commit()),
                )
                &&& ev == Event::Found(true) && old(self).dry_run ==> r@ == StepView::Done(
                    bare(Status::WouldChange),
                )
                &&& ev == Event::Found(true) && !old(self).dry_run ==> r@ == StepView::Run(
                    "pre-commit"@,
                    autoupdate_args_of(old(self).frozen),
                ) && final(self).phase == PreCommitPhase::AwaitAutoupdate
            },
            old(self).phase == PreCommitPhase::AwaitAutoupdate ==> match ev {
                Event::Ran(Ok(o)) => if o.status == 0 {
                    r@ == StepView::Done(applied_view(seq![]))
                } else {
                    r@ == StepView::Done(
                        errored_view("pre-commit autoupdate failed: "@ + trimmed(o.stderr@)),
                    )
                },
                Event::Ran(Err(e)) => r@ == StepView::Done(errored_view(e@)),
                _ => true,
            },
    {
        match self.phase {
            PreCommitPhase::AwaitWhich => {
                let found = match ev {
                    Event::Found(f) => f,
                    _ => false,
                };
                if !found {
                    self.phase = PreCommitPhase::Finished;
                    return Step::Done(UpdateOutcome::warned("`pre-commit` not on PATH — skipped"));
                }
                let args = autoupdate_args(self.frozen);
                if self.dry_run {
                    self.phase = PreCommitPhase::Finished;
                    return Step::Done(UpdateOutcome::new(Status::WouldChange));
                }
                self.phase = PreCommitPhase::AwaitAutoupdate;
                Step::Run("pre-commit".to_owned(), owned_args(args.as_slice()))
            },
            _ => {
                self.phase = PreCommitPhase::Finished;
                match ev {
                    Event::Ran(Ok(o)) => {
                        if o.ok() {
                            let out = UpdateOutcome::applied(Vec::new());
                            assert(out@.changes =~= seq![]);
                            Step::Done(out)
                        } else {
                            let t = trim(o.stderr.as_str());
                            let msg = concat("pre-commit autoupdate failed: ", t.as_str());
                            Step::Done(UpdateOutcome::errored(msg.as_str()))
                        }
                    },
                    Event::Ran(Err(e)) => Step::Done(UpdateOutcome::errored(e.as_str())),
                    _ => Step::Done(UpdateOutcome::new(Status::Errored)),
                }
            },
        }
    }
}

} // verus!
