//! npm: bump package.json with npm-check-updates, then `npm install` to
//! refresh the lockfile. `--major` lets ncu target the latest major.

use vstd::prelude::*;

use crate::context::{run_command, CmdOutput, Ecosystem, Runner, RunCtx};
use crate::report::Status;
use crate::text::{concat, trim, trimmed};
use crate::updaters::{
    applied_view, bare, errored_view, owned_args, strings_view, touches_repo, warned_view, OutcomeView,
    detect_file, detected_file, Detection, Event, Step, StepView, UpdateOutcome, Updater,
};

verus! {

/// The npm updater.
pub struct Npm;

impl Updater for Npm {
    fn ecosystem(&self) -> (e: Ecosystem)
        ensures
            e == Ecosystem::Npm,
    {
        Ecosystem::Npm
    }
}

impl Npm {
    /// Present with the `package.json` at the root when it is a file.
    pub fn detect(&self, pkg: String, is_file: bool) -> (d: Detection)
        ensures
            detected_file(d, pkg@, is_file, "no package.json"@),
    {
        detect_file(pkg, is_file, "no package.json")
    }
}

/// The arguments handed to `npx`.
pub open spec fn ncu_args_of(major: bool) -> Seq<Seq<char>> {
    if major {
        seq!["npm-check-updates"@, "-u"@]
    } else {
        seq!["npm-check-updates"@, "-u"@, "--target"@, "minor"@]
    }
}

/// The arguments handed to `npx`: target minor releases unless `--major`.
pub fn ncu_args(major: bool) -> (r: Vec<&'static str>)
    ensures
        r@.map_values(|s: &str| s@) == ncu_args_of(major),
{
    let r = if major {
        vec!["npm-check-updates", "-u"]
    } else {
        vec!["npm-check-updates", "-u", "--target", "minor"]
    };
    assert(r@.map_values(|s: &str| s@) =~= ncu_args_of(major));
    r
}

pub open spec fn msg_no_npx() -> Seq<char> {
    "`npx` not on PATH — skipped"@
}

/// Where an npm run stands.
#[derive(Clone, Copy, PartialEq, Eq, Structural)]
pub enum NpmPhase {
    AwaitWhichNpx,
    AwaitNcu,
    AwaitWhichNpm,
    AwaitInstall,
    Finished,
}

/// An npm run in progress.
pub struct NpmRun {
    pub phase: NpmPhase,
    pub dry_run: bool,
    pub major: bool,
}

/// How many steps a run in `phase` may still take.
pub open spec fn npm_rank(phase: NpmPhase) -> nat {
    match phase {
        NpmPhase::AwaitWhichNpx => 4,
        NpmPhase::AwaitNcu => 3,
        NpmPhase::AwaitWhichNpm => 2,
        NpmPhase::AwaitInstall => 1,
        NpmPhase::Finished => 0,
    }
}

/// The step a run in `phase` has asked for is of the right kind.
pub open spec fn npm_step_fits(phase: NpmPhase, s: StepView) -> bool {
    match phase {
        NpmPhase::AwaitWhichNpx | NpmPhase::AwaitWhichNpm => s is Which,
        NpmPhase::AwaitNcu | NpmPhase::AwaitInstall => s is Run,
        NpmPhase::Finished => s is Done,
    }
}

impl Npm {
    /// Starts an npm run: asks whether `npx` is on PATH, unless there is no
    /// package.json.
    pub fn start(&self, ctx: &RunCtx, det: &Detection) -> (r: (NpmRun, Step))
        ensures
            r.0.dry_run == ctx.dry_run,
            r.0.major == ctx.major,
            npm_step_fits(r.0.phase, r.1@),
            r.0.phase == NpmPhase::AwaitWhichNpx || r.0.phase == NpmPhase::Finished,
            det is Absent ==> r.1@ == StepView::Done(warned_view(Status::NotPresent, "no package.json"@)),
            det is Present ==> r.1@ == StepView::Which("npx"@) && r.0.phase == NpmPhase::AwaitWhichNpx,
    {
        let run = NpmRun { phase: NpmPhase::AwaitWhichNpx, dry_run: ctx.dry_run, major: ctx.major };
        match det {
            Detection::Absent { .. } => (
                NpmRun { phase: NpmPhase::Finished, ..run },
                Step::Done(UpdateOutcome::not_present("no package.json")),
            ),
            Detection::Present { .. } => (run, Step::Which("npx".to_owned())),
        }
    }

    /// Drives a whole npm run with `runner`, every command in the repository
    /// root. The outcome is what [`NpmRun::step`] answers to whatever the
    /// runner answered: whether `npx` was found, what npm-check-updates gave,
    /// whether `npm` was found, and what `npm install` gave.
    pub fn run<R: Runner>(&self, ctx: &RunCtx, runner: &R, det: &Detection) -> (o: UpdateOutcome)
        ensures
            exists|
                npx: bool,
                ncu: Result<CmdOutput, String>,
                npm: bool,
                install: Result<CmdOutput, String>,
            |
                o@ == #[trigger] npm_outcome(
                    det is Present,
                    ctx.dry_run,
                    npx,
                    ncu,
                    npm,
                    install,
                ),
    {
        let ghost present = det is Present;
        let ghost mut npx: bool = false;
        let ghost mut ncu: Result<CmdOutput, String> = arbitrary();
        let ghost mut npm: bool = false;
        let ghost mut install: Result<CmdOutput, String> = arbitrary();
        let (mut m, step) = self.start(ctx, det);
        let p = match step {
            Step::Done(o) => {
                assert(o@ == npm_outcome(present, ctx.dry_run, npx, ncu, npm, install));
                return o;
            },
            Step::Which(p) => p,
            _ => {
                assert(false);
                return UpdateOutcome::new(Status::Errored);
            },
        };
        let found = runner.which(p.as_str());
        proof {
            npx = found;
        }
        let step = m.step(Event::Found(found));
        let (p, args) = match step {
            Step::Done(o) => {
                assert(o@ == npm_outcome(present, ctx.dry_run, npx, ncu, npm, install));
                return o;
            },
            Step::Run(p, args) => (p, args),
            _ => {
                assert(false);
                return UpdateOutcome::new(Status::Errored);
            },
        };
        let res = run_command(runner, &p, &args, ctx.repo_root.as_str());
        proof {
            ncu = res;
        }
        let step = m.step(Event::Ran(res));
        let p = match step {
            Step::Done(o) => {
                assert(o@ == npm_outcome(present, ctx.dry_run, npx, ncu, npm, install));
                return o;
            },
            Step::Which(p) => p,
            _ => {
                assert(false);
                return UpdateOutcome::new(Status::Errored);
            },
        };
        let found = runner.which(p.as_str());
        proof {
            npm = found;
        }
        let step = m.step(Event::Found(found));
        let (p, args) = match step {
            Step::Done(o) => {
                assert(o@ == npm_outcome(present, ctx.dry_run, npx, ncu, npm, install));
                return o;
            },
            Step::Run(p, args) => (p, args),
            _ => {
                assert(false);
                return UpdateOutcome::new(Status::Errored);
            },
        };
        let res = run_command(runner, &p, &args, ctx.repo_root.as_str());
        proof {
            install = res;
        }
        let step = m.step(Event::Ran(res));
        match step {
            Step::Done(o) => {
                assert(o@ == npm_outcome(present, ctx.dry_run, npx, ncu, npm, install));
                o
            },
            _ => {
                assert(false);
                UpdateOutcome::new(Status::Errored)
            },
        }
    }
}

/// The outcome of an npm run given what its tools answered: whether `npx` is
/// on PATH, what npm-check-updates (targeting minor unless `--major`) gave,
/// whether `npm` is on PATH, and what `npm install` gave. Nothing to do
/// without a package.json; skipped without `npx`; would-change in a dry run;
/// `npm install` is skipped when `npm` is missing.
pub open spec fn npm_outcome(
    present: bool,
    dry_run: bool,
    npx: bool,
    ncu: Result<CmdOutput, String>,
    npm: bool,
    install: Result<CmdOutput, String>,
) -> OutcomeView {
    if !present {
        warned_view(Status::NotPresent, "no package.json"@)
    } else if !npx {
        warned_view(Status::Warned, msg_no_npx())
    } else if dry_run {
        bare(Status::WouldChange)
    } else {
        match ncu {
            Ok(o) => if o.status == 0 {
                if !npm {
                    applied_view(seq![])
                } else {
                    match install {
                        Ok(u) => if u.status == 0 {
                            applied_view(seq![])
                        } else {
                            warned_view(
                                Status::UpToDate,
                                "npm install failed: "@ + trimmed(u.stderr@),
                            )
                        },
                        Err(e) => warned_view(Status::UpToDate, e@),
                    }
                }
            } else {
                errored_view("npm-check-updates failed: "@ + trimmed(o.stderr@))
            },
            Err(e) => errored_view(e@),
        }
    }
}

impl NpmRun {
    /// Answers the last step and returns the next one.
    pub fn step(&mut self, ev: Event) -> (r: Step)
        requires
            old(self).phase != NpmPhase::Finished,
            old(self).phase == NpmPhase::AwaitWhichNpx || old(self).phase == NpmPhase::AwaitWhichNpm
                ==> ev is Found,
            old(self).phase == NpmPhase::AwaitNcu || old(self).phase == NpmPhase::AwaitInstall
                ==> ev is Ran,
            old(self).dry_run ==> old(self).phase == NpmPhase::AwaitWhichNpx,
        ensures
            final(self).dry_run == old(self).dry_run,
            final(self).major == old(self).major,
            npm_step_fits(final(self).phase, r@),
            npm_rank(final(self).phase) < npm_rank(old(self).phase),
            old(self).dry_run ==> !touches_repo(r@) && final(self).phase == NpmPhase::Finished,
            r matches Step::Done(o) ==> o@.changes.len() == 0,
            old(self).dry_run ==> (r matches Step::Done(o) ==> o.status != Status::Applied && o.status
                != Status::Errored),
            old(self).phase == NpmPhase::AwaitWhichNpx ==> {
                &&& ev == Event::Found(false) ==> r@ == StepView::Done(
                    warned_view(Status::Warned, msg_no_npx()),
                )
                &&& ev == Event::Found(true) && old(self).dry_run ==> r@ == StepView::Done(
                    bare(Status::WouldChange),
                )
                &&& ev == Event::Found(true) && !old(self).dry_run ==> r@ == StepView::Run(
                    "npx"@,
                    ncu_args_of(old(self).major),
                ) && final(self).phase == NpmPhase::AwaitNcu
            },
            old(self).phase == NpmPhase::AwaitNcu ==> match ev {
                Event::Ran(Ok(o)) => if o.status == 0 {
                    r@ == StepView::Which("npm"@) && final(self).phase == NpmPhase::AwaitWhichNpm
                } else {
                    r@ == StepView::Done(
                        errored_view("npm-check-updates failed: "@ + trimmed(o.stderr@)),
                    )
                },
                Event::Ran(Err(e)) => r@ == StepView::Done(errored_view(e@)),
                _ => true,
            },
            old(self).phase == NpmPhase::AwaitWhichNpm ==> {
                &&& ev == Event::Found(false) ==> r@ == StepView::Done(applied_view(seq![]))
                &&& ev == Event::Found(true) ==> r@ == StepView::Run("npm"@, seq!["install"@])
                    && final(self).phase == NpmPhase::AwaitInstall
            },
            old(self).phase == NpmPhase::AwaitInstall ==> match ev {
                Event::Ran(Ok(o)) => if o.status == 0 {
                    r@ == StepView::Done(applied_view(seq![]))
                } else {
                    r@ == StepView::Done(
                        warned_view(Status::UpToDate, "npm install failed: "@ + trimmed(o.stderr@)),
                    )
                },
                Event::Ran(Err(e)) => r@ == StepView::Done(warned_view(Status::UpToDate, e@)),
                _ => true,
            },
    {
        match self.phase {
            NpmPhase::AwaitWhichNpx => {
                let found = match ev {
                    Event::Found(f) => f,
                    _ => false,
                };
                if !found {
                    self.phase = NpmPhase::Finished;
                    return Step::Done(UpdateOutcome::warned("`npx` not on PATH — skipped"));
                }
                if self.dry_run {
                    self.phase = NpmPhase::Finished;
                    return Step::Done(UpdateOutcome::new(Status::WouldChange));
                }
                self.phase = NpmPhase::AwaitNcu;
                let args = ncu_args(self.major);
                Step::Run("npx".to_owned(), owned_args(args.as_slice()))
            },
            NpmPhase::AwaitNcu => {
                self.phase = NpmPhase::Finished;
                match ev {
                    Event::Ran(Ok(o)) => {
                        if o.ok() {
                            self.phase = NpmPhase::AwaitWhichNpm;
                            Step::Which("npm".to_owned())
                        } else {
                            let t = trim(o.stderr.as_str());
                            let msg = concat("npm-check-updates failed: ", t.as_str());
                            Step::Done(UpdateOutcome::errored(msg.as_str()))
                        }
                    },
                    Event::Ran(Err(e)) => Step::Done(UpdateOutcome::errored(e.as_str())),
                    _ => Step::Done(UpdateOutcome::new(Status::Errored)),
                }
            },
            NpmPhase::AwaitWhichNpm => {
                let found = match ev {
                    Event::Found(f) => f,
                    _ => false,
                };
                if found {
                    self.phase = NpmPhase::AwaitInstall;
                    let args = vec!["install"];
                    let owned = owned_args(args.as_slice());
                    assert(strings_view(owned@) =~= seq!["install"@]);
                    Step::Run("npm".to_owned(), owned)
                } else {
                    self.phase = NpmPhase::Finished;
                    let out = UpdateOutcome::applied(Vec::new());
                    assert(out@.changes =~= seq![]);
                    Step::Done(out)
                }
            },
            _ => {
                self.phase = NpmPhase::Finished;
                let mut out = UpdateOutcome::applied(Vec::new());
                assert(out@.changes =~= seq![]);
                assert(out@ == applied_view(seq![]));
                match ev {
                    Event::Ran(Ok(o)) => {
                        if !o.ok() {
                            let t = trim(o.stderr.as_str());
                            let msg = concat("npm install failed: ", t.as_str());
                            let ghost mv = msg@;
                            out.warnings.push(msg);
                            assert(out@.warnings =~= seq![mv]);
                        }
                    },
                    Event::Ran(Err(e)) => {
                        let ghost ev_ = e@;
                        out.warnings.push(e);
                        assert(out@.warnings =~= seq![ev_]);
                    },
                    _ => {},
                }
                Step::Done(out)
            },
        }
    }
}

} // verus!
