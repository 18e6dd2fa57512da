//! What a run decides before and between the updaters: which ecosystems it
//! visits, and how their detections split into present and absent ones.

use vstd::prelude::*;

use crate::context::{is_selected, run_order, Ecosystem, RunCtx};
use crate::report::{
    eco_log_of, held_head, held_text, quiet_hides, line_text, summary_text, tallied, EcoLog,
    HeldBackMajor, OptionsLog, Reporter, RunLog, SummaryLog,
};
use crate::text::views_of;
use crate::updaters::{all, Detection, OutcomeView, UpdateOutcome};

verus! {

/// The ecosystems of `order` that the selection keeps, in order.
pub open spec fn picked(order: Seq<Ecosystem>, only: Seq<Ecosystem>, skip: Seq<Ecosystem>) -> Seq<
    Ecosystem,
>
    decreases order.len(),
{
    if order.len() == 0 {
        seq![]
    } else {
        picked(order.drop_last(), only, skip) + (if is_selected(only, skip, order.last()) {
            seq![order.last()]
        } else {
            Seq::<Ecosystem>::empty()
        })
    }
}

/// The ecosystems a run visits: those the selection keeps, in run order.
pub fn selected_ecosystems(ctx: &RunCtx) -> (r: Vec<Ecosystem>)
    ensures
        r@ == picked(run_order(), ctx.only@, ctx.skip@),
{
    let order = all();
    let mut out: Vec<Ecosystem> = Vec::new();
    let mut i: usize = 0;
    while i < order.len()
        invariant
            i <= order@.len(),
            order@ == run_order(),
            out@ == picked(order@.subrange(0, i as int), ctx.only@, ctx.skip@),
        decreases order@.len() - i,
    {
        let ghost sub = order@.subrange(0, i + 1);
        assert(sub.drop_last() =~= order@.subrange(0, i as int));
        if ctx.selected(order[i]) {
            out.push(order[i]);
        }
        i = i + 1;
        assert(out@ =~= picked(order@.subrange(0, i as int), ctx.only@, ctx.skip@));
    }
    assert(order@.subrange(0, order@.len() as int) =~= order@);
    out
}

/// The ecosystems detected present, in order.
pub open spec fn present_of(jobs: Seq<(Ecosystem, Detection)>) -> Seq<Ecosystem>
    decreases jobs.len(),
{
    if jobs.len() == 0 {
        seq![]
    } else {
        present_of(jobs.drop_last()) + (if jobs.last().1 is Present {
            seq![jobs.last().0]
        } else {
            Seq::<Ecosystem>::empty()
        })
    }
}

/// The ecosystems detected absent, each with its reason, in order.
pub open spec fn absent_of(jobs: Seq<(Ecosystem, Detection)>) -> Seq<(Ecosystem, Seq<char>)>
    decreases jobs.len(),
{
    if jobs.len() == 0 {
        seq![]
    } else {
        absent_of(jobs.drop_last()) + (match jobs.last().1 {
            Detection::Absent { reason } => seq![(jobs.last().0, reason@)],
            Detection::Present { .. } => Seq::<(Ecosystem, Seq<char>)>::empty(),
        })
    }
}

/// The views of (ecosystem, reason) pairs.
pub open spec fn reason_views(v: Seq<(Ecosystem, String)>) -> Seq<(Ecosystem, Seq<char>)> {
    v.map_values(|a: (Ecosystem, String)| (a.0, a.1@))
}

/// Splits the detections into the present ecosystems and the absent ones
/// with their reasons, both in order.
pub fn split_detections(jobs: &Vec<(Ecosystem, Detection)>) -> (r: (
    Vec<Ecosystem>,
    Vec<(Ecosystem, String)>,
))
    ensures
        r.0@ == present_of(jobs@),
        reason_views(r.1@) == absent_of(jobs@),
{
    let mut present: Vec<Ecosystem> = Vec::new();
    let mut absent: Vec<(Ecosystem, String)> = Vec::new();
    let mut i: usize = 0;
    while i < jobs.len()
        invariant
            i <= jobs@.len(),
            present@ == present_of(jobs@.subrange(0, i as int)),
            reason_views(absent@) == absent_of(jobs@.subrange(0, i as int)),
        decreases jobs@.len() - i,
    {
        let ghost sub = jobs@.subrange(0, i + 1);
        assert(sub.drop_last() =~= jobs@.subrange(0, i as int));
        assert(sub.last() == jobs@[i as int]);
        let (e, d) = &jobs[i];
        match d {
            Detection::Present { .. } => {
                present.push(*e);
            },
            Detection::Absent { reason } => {
                absent.push((*e, reason.clone()));
            },
        }
        i = i + 1;
        assert(present@ =~= present_of(jobs@.subrange(0, i as int)));
        assert(reason_views(absent@) =~= absent_of(jobs@.subrange(0, i as int)));
    }
    assert(jobs@.subrange(0, jobs@.len() as int) =~= jobs@);
    (present, absent)
}

/// The totals of a run whose ecosystems ended with `outs`, in order.
pub open spec fn tally_all(outs: Seq<OutcomeView>) -> (nat, nat, nat)
    decreases outs.len(),
{
    if outs.len() == 0 {
        (0, 0, 0)
    } else {
        tallied(tally_all(outs.drop_last()), outs.last())
    }
}

/// The ecosystems of the jobs, in order.
pub open spec fn job_ecosystems(jobs: Seq<(Ecosystem, Detection)>) -> Seq<Ecosystem> {
    jobs.map_values(|j: (Ecosystem, Detection)| j.0)
}

/// Whether each job's ecosystem was detected present, in order.
pub open spec fn job_detected(jobs: Seq<(Ecosystem, Detection)>) -> Seq<bool> {
    jobs.map_values(|j: (Ecosystem, Detection)| j.1 is Present)
}

/// A run in progress: its jobs, and what the finished ones left behind.
pub struct RunSession {
    pub ecosystems: Vec<Ecosystem>,
    pub detected: Vec<bool>,
    /// The job whose outcome comes next.
    pub next: usize,
    pub summary: SummaryLog,
    pub logs: Vec<EcoLog>,
    pub held: Vec<HeldBackMajor>,
    /// The outcomes recorded so far.
    pub outcomes: Ghost<Seq<OutcomeView>>,
}

impl RunSession {
    /// The session's record agrees with the outcomes seen so far.
    pub open spec fn wf(self) -> bool {
        &&& self.ecosystems@.len() == self.detected@.len()
        &&& self.next <= self.ecosystems@.len()
        &&& self.outcomes@.len() == self.next
        &&& self.logs@.len() == self.next
        &&& self.summary.totals() == tally_all(self.outcomes@)
        &&& forall|i: int|
            0 <= i < self.next ==> (#[trigger] self.logs@[i])@ == eco_log_of(
                self.ecosystems@[i],
                self.detected@[i],
                self.outcomes@[i],
            )
    }

    /// A session over the detected jobs, none run yet.
    pub fn new(jobs: &Vec<(Ecosystem, Detection)>) -> (r: RunSession)
        ensures
            r.wf(),
            r.next == 0,
            r.ecosystems@ == job_ecosystems(jobs@),
            r.detected@ == job_detected(jobs@),
            r.held@.len() == 0,
    {
        let mut ecosystems: Vec<Ecosystem> = Vec::new();
        let mut detected: Vec<bool> = Vec::new();
        let mut i: usize = 0;
        while i < jobs.len()
            invariant
                i <= jobs@.len(),
                ecosystems@ == job_ecosystems(jobs@.subrange(0, i as int)),
                detected@ == job_detected(jobs@.subrange(0, i as int)),
            decreases jobs@.len() - i,
        {
            let (e, d) = &jobs[i];
            ecosystems.push(*e);
            detected.push(
                match d {
                    Detection::Present { .. } => true,
                    Detection::Absent { .. } => false,
                },
            );
            i = i + 1;
            assert(ecosystems@ =~= job_ecosystems(jobs@.subrange(0, i as int)));
            assert(detected@ =~= job_detected(jobs@.subrange(0, i as int)));
        }
        assert(jobs@.subrange(0, jobs@.len() as int) =~= jobs@);
        RunSession {
            ecosystems,
            detected,
            next: 0,
            summary: SummaryLog::new(),
            logs: Vec::new(),
            held: Vec::new(),
            outcomes: Ghost(Seq::empty()),
        }
    }

    /// Records the next job's outcome: its line for the screen (none when a
    /// quiet report hides it), its place in the totals, its log entry and its
    /// held-back majors.
    pub fn record(&mut self, reporter: &Reporter, frozen: bool, out: UpdateOutcome) -> (r: Option<
        String,
    >)
        requires
            old(self).wf(),
            old(self).next < old(self).ecosystems@.len(),
            old(self).summary.updated + out.changes@.len() <= usize::MAX,
            old(self).summary.ecosystems_touched < usize::MAX,
            old(self).summary.errors < usize::MAX,
        ensures
            final(self).wf(),
            final(self).next == old(self).next + 1,
            final(self).outcomes@ == old(self).outcomes@.push(out@),
            final(self).ecosystems@ == old(self).ecosystems@,
            final(self).detected@ == old(self).detected@,
            final(self).held@ == old(self).held@ + out.held_back@,
            reporter.quiet && quiet_hides(out.status) ==> r is None,
            !(reporter.quiet && quiet_hides(out.status)) ==> (r matches Some(t) && t@ == line_text(
                old(self).ecosystems@[old(self).next as int],
                out@,
                frozen,
            )),
    {
        let n = self.next;
        let total = self.ecosystems.len();
        let eco = self.ecosystems[n];
        let line = reporter.line(eco, &out, frozen);
        let ghost o = out@;
        self.summary.record(&out);
        let (log, mut held) = EcoLog::from_outcome(eco, self.detected[n], out);
        self.logs.push(log);
        self.held.append(&mut held);
        self.outcomes = Ghost(self.outcomes@.push(o));
        assert(n < total);
        self.next = n + 1;
        proof {
            assert(self.outcomes@.drop_last() =~= old(self).outcomes@);
            assert forall|i: int| 0 <= i < self.next implies (#[trigger] self.logs@[i])@
                == eco_log_of(self.ecosystems@[i], self.detected@[i], self.outcomes@[i]) by {
                if i < self.next - 1 {
                    assert(self.logs@[i] == old(self).logs@[i]);
                }
            }
        }
        line
    }

    /// Ends the run once every job is recorded: the held-back lines and the
    /// summary line for the screen, the exit code (1 when any ecosystem
    /// failed), and the run's log.
    pub fn finish(self, reporter: &Reporter, version: String, repo_root: String, options: OptionsLog) -> (r: (
        Vec<String>,
        String,
        i32,
        RunLog,
    ))
        requires
            self.wf(),
            self.next == self.ecosystems@.len(),
        ensures
            reporter.quiet || self.held@.len() == 0 ==> r.0@.len() == 0,
            !(reporter.quiet || self.held@.len() == 0) ==> views_of(r.0@) == seq![
                held_head(self.held@.len()),
            ] + self.held@.map_values(|h: HeldBackMajor| held_text(h)),
            r.1@ == summary_text(tally_all(self.outcomes@).0, tally_all(self.outcomes@).1, tally_all(self.outcomes@).2),
            r.2 == (if tally_all(self.outcomes@).2 > 0 { 1i32 } else { 0i32 }),
            r.3.tool@ == "clockpin"@,
            r.3.version@ == version@,
            r.3.repo_root@ == repo_root@,
            r.3.options == options,
            r.3.ecosystems@ == self.logs@,
            r.3.held_back_majors@ == self.held@,
            r.3.summary.totals() == tally_all(self.outcomes@),
    {
        let held_lines = reporter.held_back(&self.held);
        let summary_line = reporter.summary(
            self.summary.updated,
            self.summary.ecosystems_touched,
            self.summary.errors,
        );
        let code = self.summary.exit_code();
        let log = RunLog::new(version, repo_root, options, self.logs, self.held, self.summary);
        (held_lines, summary_line, code, log)
    }
}

/// The number of changes in `outs`, all outcomes together.
pub open spec fn changes_total(outs: Seq<OutcomeView>) -> nat
    decreases outs.len(),
{
    if outs.len() == 0 {
        0
    } else {
        changes_total(outs.drop_last()) + outs.last().changes.len()
    }
}

/// The updated total is the number of changes of all recorded outcomes
/// together, and totals add up over consecutive runs of outcomes: recording
/// `a` then `b` updates as many dependencies as the two separately.
pub proof fn law_updated_sums_changes(a: Seq<OutcomeView>, b: Seq<OutcomeView>)
    ensures
        tally_all(a).0 == changes_total(a),
        tally_all(a + b).0 == tally_all(a).0 + tally_all(b).0,
{
    lemma_updated_is_total(a);
    lemma_updated_is_total(b);
    lemma_updated_is_total(a + b);
    lemma_total_concat(a, b);
}

proof fn lemma_updated_is_total(outs: Seq<OutcomeView>)
    ensures
        tally_all(outs).0 == changes_total(outs),
    decreases outs.len(),
{
    if outs.len() > 0 {
        lemma_updated_is_total(outs.drop_last());
    }
}

proof fn lemma_total_concat(a: Seq<OutcomeView>, b: Seq<OutcomeView>)
    ensures
        changes_total(a + b) == changes_total(a) + changes_total(b),
    decreases b.len(),
{
    if b.len() == 0 {
        assert(a + b =~= a);
    } else {
        assert((a + b).drop_last() =~= a + b.drop_last());
        assert((a + b).last() == b.last());
        lemma_total_concat(a, b.drop_last());
    }
}

/// The totals count every change, each ecosystem that changed anything once,
/// and each failed ecosystem once; so a run exits with 1 exactly when some
/// ecosystem failed.
pub proof fn law_totals_count_outcomes(outs: Seq<OutcomeView>)
    ensures
        tally_all(outs).1 == outs.filter(|o: OutcomeView| o.changes.len() > 0).len(),
        tally_all(outs).2 > 0 <==> exists|i: int| 0 <= i < outs.len() && (#[trigger] outs[i]).status
            == crate::report::Status::Errored,
        tally_all(outs).1 <= outs.len(),
        tally_all(outs).2 <= outs.len(),
    decreases outs.len(),
{
    if outs.len() > 0 {
        let init = outs.drop_last();
        law_totals_count_outcomes(init);
        reveal(Seq::filter);
        assert(init.filter(|o: OutcomeView| o.changes.len() > 0) == outs.drop_last().filter(
            |o: OutcomeView| o.changes.len() > 0,
        ));
        if exists|i: int| 0 <= i < init.len() && (#[trigger] init[i]).status
            == crate::report::Status::Errored {
            let i = choose|i: int| 0 <= i < init.len() && (#[trigger] init[i]).status
                == crate::report::Status::Errored;
            assert(outs[i] == init[i]);
        }
        if exists|i: int| 0 <= i < outs.len() && (#[trigger] outs[i]).status
            == crate::report::Status::Errored {
            let i = choose|i: int| 0 <= i < outs.len() && (#[trigger] outs[i]).status
                == crate::report::Status::Errored;
            if i < init.len() {
                assert(init[i] == outs[i]);
            }
        }
    }
}

} // verus!
