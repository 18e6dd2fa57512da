//! Result kinds shared by the updaters, and the text of the screen report.

use vstd::prelude::*;

use crate::context::{emoji_of, key_of, Ecosystem, RunCtx};
use crate::text::{
    bool_text, concat, decimal, decimal_text, join, joined_with, pad_right, padded, views_of,
};
use crate::updaters::{OutcomeView, UpdateOutcome};

verus! {

/// What happened to one ecosystem.
#[derive(Clone, Copy, Debug, PartialEq, Eq, Structural)]
pub enum Status {
    Applied,
    WouldChange,
    UpToDate,
    NotPresent,
    Warned,
    Errored,
}

/// How a status is named in the JSON log.
pub open spec fn status_text(s: Status) -> Seq<char> {
    match s {
        Status::Applied => "applied"@,
        Status::WouldChange => "would-change"@,
        Status::UpToDate => "up-to-date"@,
        Status::NotPresent => "not-present"@,
        Status::Warned => "skipped"@,
        Status::Errored => "error"@,
    }
}

/// The glyph shown for a status on screen.
pub open spec fn status_glyph(s: Status) -> Seq<char> {
    match s {
        Status::Applied => "✅"@,
        Status::WouldChange => "📝"@,
        Status::UpToDate => "✅"@,
        Status::NotPresent => "⏭️"@,
        Status::Warned => "⚠️"@,
        Status::Errored => "❌"@,
    }
}

impl Status {
    /// The status's name in the JSON log.
    pub fn as_str(self) -> (r: &'static str)
        ensures
            r@ == status_text(self),
    {
        match self {
            Status::Applied => "applied",
            Status::WouldChange => "would-change",
            Status::UpToDate => "up-to-date",
            Status::NotPresent => "not-present",
            Status::Warned => "skipped",
            Status::Errored => "error",
        }
    }

    /// The status's glyph on screen.
    pub fn glyph(self) -> (r: &'static str)
        ensures
            r@ == status_glyph(self),
    {
        match self {
            Status::Applied => "✅",
            Status::WouldChange => "📝",
            Status::UpToDate => "✅",
            Status::NotPresent => "⏭️",
            Status::Warned => "⚠️",
            Status::Errored => "❌",
        }
    }
}

/// The kind of a recorded change.
#[derive(Clone, Copy, Debug, PartialEq, Eq, Structural)]
pub enum ChangeKind {
    Bump,
    Pin,
    Image,
}

/// One dependency change: `name` moved `from` → `to`.
#[derive(Debug)]
pub struct Change {
    pub name: String,
    pub from: String,
    pub to: String,
    pub kind: ChangeKind,
}

/// The mathematical content of a [`Change`].
pub struct ChangeView {
    pub name: Seq<char>,
    pub from: Seq<char>,
    pub to: Seq<char>,
    pub kind: ChangeKind,
}

impl View for Change {
    type V = ChangeView;

    open spec fn view(&self) -> ChangeView {
        ChangeView { name: self.name@, from: self.from@, to: self.to@, kind: self.kind }
    }
}

/// The views of a sequence of changes.
pub open spec fn change_views(cs: Seq<Change>) -> Seq<ChangeView> {
    cs.map_values(|c: Change| c@)
}

/// A major upgrade that a cap held back.
#[derive(Debug)]
pub struct HeldBackMajor {
    pub ecosystem: String,
    pub name: String,
    pub current: String,
    pub latest: String,
}


/// How one change is shown on screen: `name from→to`.
pub open spec fn change_text(c: ChangeView) -> Seq<char> {
    c.name + " "@ + c.from + "→"@ + c.to
}

/// What `console::style(s).bold()` renders with styling on: the terminal's
/// bold sequence, `s`, and the reset sequence.
pub open spec fn bold_text(s: Seq<char>) -> Seq<char> {
    seq!['\u{1b}', '[', '1', 'm'] + s + seq!['\u{1b}', '[', '0', 'm']
}

/// `console::style(s).bold().force_styling(true).to_string()`: `s` between
/// the bold sequence (`ESC[1m`) and the reset sequence (`ESC[0m`). The
/// caller decides whether color is on, so styling is forced here.
#[verifier::external_body]
fn bold(s: &str) -> (r: String)
    ensures
        r@ == bold_text(s@),
{
    console::style(s).bold().force_styling(true).to_string()
}

/// `s` emphasized when color is on.
pub open spec fn emph_text(color: bool, s: Seq<char>) -> Seq<char> {
    if color {
        bold_text(s)
    } else {
        s
    }
}

/// The screen report's settings.
pub struct Reporter {
    pub quiet: bool,
    pub verbose: bool,
    pub color: bool,
}

/// The banner printed before a run.
pub open spec fn header_text(color: bool) -> Seq<char> {
    "\n  🔒 "@ + emph_text(color, "lockstep"@) + " · continuous lockfile pin updates\n"@
}

/// The keys of `ecos`, in order.
pub open spec fn keys_of(ecos: Seq<Ecosystem>) -> Seq<Seq<char>> {
    ecos.map_values(|e: Ecosystem| key_of(e))
}

/// The keys of the absent ecosystems, in order.
pub open spec fn absent_keys(absent: Seq<(Ecosystem, String)>) -> Seq<Seq<char>> {
    absent.map_values(|a: (Ecosystem, String)| key_of(a.0))
}

/// The `detected:` line: present keys joined by ` · `, absent ones by `, `.
pub open spec fn detected_text(present: Seq<Ecosystem>, absent: Seq<(Ecosystem, String)>) -> Seq<char> {
    "  🔎 detected: "@ + joined_with(keys_of(present), " · "@) + "   (absent: "@ + joined_with(
        absent_keys(absent),
        ", "@,
    ) + ")\n"@
}

/// The verbose line that says why an ecosystem is absent.
pub open spec fn absent_text(a: (Ecosystem, String)) -> Seq<char> {
    "      "@ + emoji_of(a.0) + " "@ + key_of(a.0) + ": "@ + a.1@
}

/// The detail of an ecosystem's line: the first warning when not present,
/// the warnings and errors when skipped or failed, else the changes.
pub open spec fn line_detail(o: OutcomeView) -> Seq<char> {
    match o.status {
        Status::NotPresent => if o.warnings.len() > 0 {
            o.warnings[0]
        } else {
            "not present"@
        },
        Status::Warned | Status::Errored => joined_with(o.warnings + o.errors, "; "@),
        _ => if o.changes.len() == 0 {
            "up to date"@
        } else {
            joined_with(o.changes.map_values(|c: ChangeView| change_text(c)), " · "@)
        },
    }
}

/// The line shown for one ecosystem's outcome.
pub open spec fn line_text(eco: Ecosystem, o: OutcomeView, frozen: bool) -> Seq<char> {
    "  "@ + emoji_of(eco) + " "@ + padded(key_of(eco), 11) + " "@ + status_glyph(o.status) + " "@
        + line_detail(o) + (if frozen && o.changes.len() > 0 {
        "  🔒 frozen"@
    } else {
        Seq::<char>::empty()
    })
}

/// Whether a quiet report leaves out an outcome's line.
pub open spec fn quiet_hides(status: Status) -> bool {
    status == Status::UpToDate || status == Status::NotPresent
}

/// The line for one major upgrade held back by a cap.
pub open spec fn held_text(h: HeldBackMajor) -> Seq<char> {
    "      "@ + h.name@ + " "@ + h.current@ + " → "@ + h.latest@ + "     run with --major to apply"@
}

/// The heading of the held-back list.
pub open spec fn held_head(n: nat) -> Seq<char> {
    "\n  ⚠️  "@ + decimal(n) + " major upgrade(s) held back by a cap:"@
}

/// The closing summary line.
pub open spec fn summary_text(updated: nat, ecosystems: nat, errors: nat) -> Seq<char> {
    "\n  ✨ updated "@ + decimal(updated) + " dependencies across "@ + decimal(ecosystems)
        + " ecosystems · "@ + decimal(errors) + " errors"@
}

/// The keys of `ecos`, in order (exec).
fn eco_keys(ecos: &Vec<Ecosystem>) -> (r: Vec<String>)
    ensures
        views_of(r@) == keys_of(ecos@),
{
    let mut out: Vec<String> = Vec::new();
    let mut i: usize = 0;
    while i < ecos.len()
        invariant
            i <= ecos@.len(),
            out@.len() == i,
            forall|j: int| 0 <= j < i ==> (#[trigger] out@[j])@ == key_of(ecos@[j]),
        decreases ecos@.len() - i,
    {
        out.push(ecos[i].key().to_owned());
        i = i + 1;
    }
    assert(views_of(out@) =~= keys_of(ecos@));
    out
}

impl Reporter {
    /// `s`, emphasized when color is on.
    fn emph(&self, s: &str) -> (r: String)
        ensures
            r@ == emph_text(self.color, s@),
    {
        if self.color {
            bold(s)
        } else {
            s.to_owned()
        }
    }

    /// The banner, unless quiet.
    pub fn header(&self) -> (r: Option<String>)
        ensures
            self.quiet ==> r is None,
            !self.quiet ==> (r matches Some(t) && t@ == header_text(self.color)),
    {
        if self.quiet {
            return None;
        }
        let a = concat("\n  🔒 ", self.emph("lockstep").as_str());
        Some(concat(a.as_str(), " · continuous lockfile pin updates\n"))
    }

    /// The lines that say what was detected (none when quiet): the
    /// `detected:` line, and when verbose why each absent ecosystem is absent.
    pub fn detected(&self, present: &Vec<Ecosystem>, absent: &Vec<(Ecosystem, String)>) -> (r: Vec<
        String,
    >)
        ensures
            self.quiet ==> r@.len() == 0,
            !self.quiet ==> views_of(r@) == seq![detected_text(present@, absent@)] + (if self.verbose {
                absent@.map_values(|a: (Ecosystem, String)| absent_text(a))
            } else {
                Seq::<Seq<char>>::empty()
            }),
    {
        let mut lines: Vec<String> = Vec::new();
        if self.quiet {
            return lines;
        }
        let p = join(&eco_keys(present), " · ");
        let mut akeys: Vec<String> = Vec::new();
        let mut i: usize = 0;
        while i < absent.len()
            invariant
                i <= absent@.len(),
                akeys@.len() == i,
                forall|j: int| 0 <= j < i ==> (#[trigger] akeys@[j])@ == key_of(absent@[j].0),
            decreases absent@.len() - i,
        {
            akeys.push(absent[i].0.key().to_owned());
            i = i + 1;
        }
        assert(views_of(akeys@) =~= absent_keys(absent@));
        let a = join(&akeys, ", ");
        let t1 = concat("  🔎 detected: ", p.as_str());
        let t2 = concat(t1.as_str(), "   (absent: ");
        let t3 = concat(t2.as_str(), a.as_str());
        lines.push(concat(t3.as_str(), ")\n"));
        if self.verbose {
            let mut j: usize = 0;
            while j < absent.len()
                invariant
                    j <= absent@.len(),
                    lines@.len() == j + 1,
                    lines@[0]@ == detected_text(present@, absent@),
                    forall|k: int| 0 <= k < j ==> (#[trigger] lines@[k + 1])@ == absent_text(absent@[k]),
                decreases absent@.len() - j,
            {
                let (e, reason) = &absent[j];
                let u1 = concat("      ", e.emoji());
                let u2 = concat(u1.as_str(), " ");
                let u3 = concat(u2.as_str(), e.key());
                let u4 = concat(u3.as_str(), ": ");
                lines.push(concat(u4.as_str(), reason.as_str()));
                j = j + 1;
            }
            assert forall|k: int| 0 <= k < lines@.len() implies #[trigger] views_of(lines@)[k] == (seq![
                detected_text(present@, absent@),
            ] + absent@.map_values(|a: (Ecosystem, String)| absent_text(a)))[k] by {
                if k > 0 {
                    assert(lines@[(k - 1) + 1] == lines@[k]);
                }
            }
            assert(views_of(lines@) =~= seq![detected_text(present@, absent@)]
                + absent@.map_values(|a: (Ecosystem, String)| absent_text(a)));
        } else {
            assert(views_of(lines@) =~= seq![detected_text(present@, absent@)]);
        }
        lines
    }

    /// The line for one ecosystem's outcome; quiet reports leave out the
    /// up-to-date and not-present ones.
    pub fn line(&self, eco: Ecosystem, out: &UpdateOutcome, frozen: bool) -> (r: Option<String>)
        ensures
            self.quiet && quiet_hides(out.status) ==> r is None,
            !(self.quiet && quiet_hides(out.status)) ==> (r matches Some(t) && t@ == line_text(
                eco,
                out@,
                frozen,
            )),
    {
        if self.quiet && (out.status == Status::UpToDate || out.status == Status::NotPresent) {
            return None;
        }
        let detail = outcome_detail(out);
        let t1 = concat("  ", eco.emoji());
        let t2 = concat(t1.as_str(), " ");
        let t3 = concat(t2.as_str(), pad_right(eco.key(), 11).as_str());
        let t4 = concat(t3.as_str(), " ");
        let t5 = concat(t4.as_str(), out.status.glyph());
        let t6 = concat(t5.as_str(), " ");
        let t7 = concat(t6.as_str(), detail.as_str());
        let tag = if frozen && out.changes.len() > 0 {
            "  🔒 frozen"
        } else {
            ""
        };
        proof {
            reveal_strlit("");
        }
        Some(concat(t7.as_str(), tag))
    }

    /// The held-back list (none when quiet or empty).
    pub fn held_back(&self, held: &Vec<HeldBackMajor>) -> (r: Vec<String>)
        ensures
            self.quiet || held@.len() == 0 ==> r@.len() == 0,
            !(self.quiet || held@.len() == 0) ==> views_of(r@) == seq![held_head(held@.len())]
                + held@.map_values(|h: HeldBackMajor| held_text(h)),
    {
        let mut lines: Vec<String> = Vec::new();
        if self.quiet || held.len() == 0 {
            return lines;
        }
        let n = decimal_text(held.len() as u64);
        let h1 = concat("\n  ⚠️  ", n.as_str());
        lines.push(concat(h1.as_str(), " major upgrade(s) held back by a cap:"));
        let mut i: usize = 0;
        while i < held.len()
            invariant
                i <= held@.len(),
                lines@.len() == i + 1,
                lines@[0]@ == held_head(held@.len()),
                forall|k: int| 0 <= k < i ==> (#[trigger] lines@[k + 1])@ == held_text(held@[k]),
            decreases held@.len() - i,
        {
            let h = &held[i];
            let u1 = concat("      ", h.name.as_str());
            let u2 = concat(u1.as_str(), " ");
            let u3 = concat(u2.as_str(), h.current.as_str());
            let u4 = concat(u3.as_str(), " → ");
            let u5 = concat(u4.as_str(), h.latest.as_str());
            lines.push(concat(u5.as_str(), "     run with --major to apply"));
            i = i + 1;
        }
        assert forall|k: int| 0 <= k < lines@.len() implies #[trigger] views_of(lines@)[k] == (seq![
            held_head(held@.len()),
        ] + held@.map_values(|h: HeldBackMajor| held_text(h)))[k] by {
            if k > 0 {
                assert(lines@[(k - 1) + 1] == lines@[k]);
            }
        }
        assert(views_of(lines@) =~= seq![held_head(held@.len())] + held@.map_values(
            |h: HeldBackMajor| held_text(h),
        ));
        lines
    }

    /// The closing summary line.
    pub fn summary(&self, updated: usize, ecosystems: usize, errors: usize) -> (r: String)
        ensures
            r@ == summary_text(updated as nat, ecosystems as nat, errors as nat),
    {
        let a = concat("\n  ✨ updated ", decimal_text(updated as u64).as_str());
        let b = concat(a.as_str(), " dependencies across ");
        let c = concat(b.as_str(), decimal_text(ecosystems as u64).as_str());
        let d = concat(c.as_str(), " ecosystems · ");
        let e = concat(d.as_str(), decimal_text(errors as u64).as_str());
        concat(e.as_str(), " errors")
    }
}

/// The detail of an outcome's line (exec).
fn outcome_detail(out: &UpdateOutcome) -> (r: String)
    ensures
        r@ == line_detail(out@),
{
    match out.status {
        Status::NotPresent => {
            if out.warnings.len() > 0 {
                out.warnings[0].clone()
            } else {
                "not present".to_owned()
            }
        },
        Status::Warned | Status::Errored => {
            let mut all: Vec<String> = Vec::new();
            let mut i: usize = 0;
            while i < out.warnings.len()
                invariant
                    i <= out.warnings@.len(),
                    all@ == out.warnings@.subrange(0, i as int),
                decreases out.warnings@.len() - i,
            {
                all.push(out.warnings[i].clone());
                i = i + 1;
                assert(all@ =~= out.warnings@.subrange(0, i as int));
            }
            let mut j: usize = 0;
            while j < out.errors.len()
                invariant
                    j <= out.errors@.len(),
                    all@ == out.warnings@ + out.errors@.subrange(0, j as int),
                decreases out.errors@.len() - j,
            {
                all.push(out.errors[j].clone());
                j = j + 1;
                assert(all@ =~= out.warnings@ + out.errors@.subrange(0, j as int));
            }
            assert(views_of(all@) =~= out@.warnings + out@.errors);
            join(&all, "; ")
        },
        _ => {
            if out.changes.len() == 0 {
                "up to date".to_owned()
            } else {
                let mut parts: Vec<String> = Vec::new();
                let mut i: usize = 0;
                while i < out.changes.len()
                    invariant
                        i <= out.changes@.len(),
                        parts@.len() == i,
                        forall|j: int| 0 <= j < i ==> (#[trigger] parts@[j])@ == change_text(
                            out.changes@[j]@,
                        ),
                    decreases out.changes@.len() - i,
                {
                    let c = &out.changes[i];
                    let a = concat(c.name.as_str(), " ");
                    let b = concat(a.as_str(), c.from.as_str());
                    let d = concat(b.as_str(), "→");
                    parts.push(concat(d.as_str(), c.to.as_str()));
                    i = i + 1;
                }
                assert(views_of(parts@) =~= change_views(out.changes@).map_values(
                    |c: ChangeView| change_text(c),
                ));
                join(&parts, " · ")
            }
        },
    }
}

/// The tool an ecosystem is updated with (`(built-in)` for Docker).
pub open spec fn tool_of(e: Ecosystem) -> Seq<char> {
    match e {
        Ecosystem::Uv | Ecosystem::Requirements => "uv"@,
        Ecosystem::Npm => "npx"@,
        Ecosystem::Cargo => "cargo"@,
        Ecosystem::Actions => "gh"@,
        Ecosystem::PreCommit => "pre-commit"@,
        Ecosystem::Docker => "(built-in)"@,
    }
}

/// The tool an ecosystem is updated with.
pub fn tool_for(e: Ecosystem) -> (r: &'static str)
    ensures
        r@ == tool_of(e),
{
    match e {
        Ecosystem::Uv | Ecosystem::Requirements => "uv",
        Ecosystem::Npm => "npx",
        Ecosystem::Cargo => "cargo",
        Ecosystem::Actions => "gh",
        Ecosystem::PreCommit => "pre-commit",
        Ecosystem::Docker => "(built-in)",
    }
}

/// Whether an ecosystem's tool can be used, given whether it was found on
/// PATH: the built-in Docker updater needs none.
pub open spec fn available_of(e: Ecosystem, on_path: bool) -> bool {
    e == Ecosystem::Docker || on_path
}

/// Whether an ecosystem's tool can be used, given whether it was found on PATH.
pub fn availability(e: Ecosystem, on_path: bool) -> (r: bool)
    ensures
        r == available_of(e, on_path),
{
    match e {
        Ecosystem::Docker => true,
        _ => on_path,
    }
}

/// Whether an ecosystem's tool can be used: always for the built-in Docker
/// updater, else whether `which` finds the ecosystem's tool on PATH (it is
/// not asked for Docker).
pub fn tool_available<F: Fn(&str) -> bool>(which: &F, e: Ecosystem) -> (r: bool)
    requires
        forall|p: &str| call_requires(*which, (p,)),
    ensures
        e == Ecosystem::Docker ==> r,
        e != Ecosystem::Docker ==> exists|p: &str, found: bool|
            {
                &&& p@ == tool_of(e)
                &&& #[trigger] call_ensures(*which, (p,), found)
                &&& r == found
            },
{
    let on_path = match e {
        Ecosystem::Docker => false,
        _ => {
            let p = tool_for(e);
            let found = which(p);
            assert(call_ensures(*which, (p,), found));
            found
        },
    };
    availability(e, on_path)
}

/// The `list` line for one ecosystem.
pub open spec fn list_text(e: Ecosystem, present: bool, available: bool) -> Seq<char> {
    "  "@ + emoji_of(e) + " "@ + padded(key_of(e), 12) + " detected="@ + bool_text(present)
        + " tool="@ + tool_of(e) + " available="@ + bool_text(available)
}

/// The `list` line for one ecosystem.
pub fn list_line(e: Ecosystem, present: bool, available: bool) -> (r: String)
    ensures
        r@ == list_text(e, present, available),
{
    let t1 = concat("  ", e.emoji());
    let t2 = concat(t1.as_str(), " ");
    let t3 = concat(t2.as_str(), pad_right(e.key(), 12).as_str());
    let t4 = concat(t3.as_str(), " detected=");
    let t5 = concat(t4.as_str(), if present { "true" } else { "false" });
    let t6 = concat(t5.as_str(), " tool=");
    let t7 = concat(t6.as_str(), tool_for(e));
    let t8 = concat(t7.as_str(), " available=");
    concat(t8.as_str(), if available { "true" } else { "false" })
}

// ---------------------------------------------------------------------------
// The JSON run log
// ---------------------------------------------------------------------------

/// The whole run, as the JSON log records it.
pub struct RunLog {
    pub tool: String,
    pub version: String,
    pub repo_root: String,
    pub options: OptionsLog,
    pub ecosystems: Vec<EcoLog>,
    pub held_back_majors: Vec<HeldBackMajor>,
    pub summary: SummaryLog,
}

/// The options a run was made with.
pub struct OptionsLog {
    pub dry_run: bool,
    pub freeze: Vec<String>,
    pub major: bool,
    pub only: Vec<String>,
    pub skip: Vec<String>,
}

/// One ecosystem's entry in the log.
pub struct EcoLog {
    pub key: String,
    pub detected: bool,
    pub tool_available: bool,
    pub status: String,
    pub changes: Vec<Change>,
    pub warnings: Vec<String>,
    pub errors: Vec<String>,
}

/// The mathematical content of an [`EcoLog`].
pub struct EcoLogView {
    pub key: Seq<char>,
    pub detected: bool,
    pub tool_available: bool,
    pub status: Seq<char>,
    pub changes: Seq<ChangeView>,
    pub warnings: Seq<Seq<char>>,
    pub errors: Seq<Seq<char>>,
}

impl View for EcoLog {
    type V = EcoLogView;

    open spec fn view(&self) -> EcoLogView {
        EcoLogView {
            key: self.key@,
            detected: self.detected,
            tool_available: self.tool_available,
            status: self.status@,
            changes: change_views(self.changes@),
            warnings: views_of(self.warnings@),
            errors: views_of(self.errors@),
        }
    }
}

/// The log entry of one ecosystem's outcome.
pub open spec fn eco_log_of(eco: Ecosystem, detected: bool, o: OutcomeView) -> EcoLogView {
    EcoLogView {
        key: key_of(eco),
        detected,
        tool_available: o.status != Status::Warned,
        status: status_text(o.status),
        changes: o.changes,
        warnings: o.warnings,
        errors: o.errors,
    }
}

/// The run's totals.
pub struct SummaryLog {
    pub updated: usize,
    pub ecosystems_touched: usize,
    pub errors: usize,
}

/// The ecosystems in the order of their keys (`actions` < `cargo` < … < `uv`).
pub open spec fn key_order() -> Seq<Ecosystem> {
    seq![
        Ecosystem::Actions,
        Ecosystem::Cargo,
        Ecosystem::Docker,
        Ecosystem::Npm,
        Ecosystem::PreCommit,
        Ecosystem::Requirements,
        Ecosystem::Uv,
    ]
}

/// The keys of the ecosystems of `order` that occur in `set`, in `order`.
pub open spec fn keys_in(order: Seq<Ecosystem>, set: Seq<Ecosystem>) -> Seq<Seq<char>>
    decreases order.len(),
{
    if order.len() == 0 {
        seq![]
    } else {
        keys_in(order.drop_last(), set) + (if set.contains(order.last()) {
            seq![key_of(order.last())]
        } else {
            Seq::<Seq<char>>::empty()
        })
    }
}

impl EcoLog {
    /// The log entry for one ecosystem's outcome; the outcome's held-back
    /// majors are handed back for the run-wide list.
    pub fn from_outcome(eco: Ecosystem, detected: bool, out: UpdateOutcome) -> (r: (
        EcoLog,
        Vec<HeldBackMajor>,
    ))
        ensures
            r.0.key@ == key_of(eco),
            r.0.detected == detected,
            r.0.tool_available == (out.status != Status::Warned),
            r.0.status@ == status_text(out.status),
            r.0.changes@ == out.changes@,
            r.0.warnings@ == out.warnings@,
            r.0.errors@ == out.errors@,
            r.1@ == out.held_back@,
            r.0@ == eco_log_of(eco, detected, out@),
    {
        let status = out.status;
        let log = EcoLog {
            key: eco.key().to_owned(),
            detected,
            tool_available: status != Status::Warned,
            status: status.as_str().to_owned(),
            changes: out.changes,
            warnings: out.warnings,
            errors: out.errors,
        };
        (log, out.held_back)
    }
}

impl OptionsLog {
    /// The options of `ctx`; the frozen ecosystems' keys come sorted.
    pub fn of(ctx: &RunCtx) -> (r: OptionsLog)
        ensures
            r.dry_run == ctx.dry_run,
            views_of(r.freeze@) == keys_in(key_order(), ctx.freeze@),
            r.major == ctx.major,
            views_of(r.only@) == keys_of(ctx.only@),
            views_of(r.skip@) == keys_of(ctx.skip@),
    {
        let order = vec![
            Ecosystem::Actions,
            Ecosystem::Cargo,
            Ecosystem::Docker,
            Ecosystem::Npm,
            Ecosystem::PreCommit,
            Ecosystem::Requirements,
            Ecosystem::Uv,
        ];
        assert(order@ =~= key_order());
        let mut freeze: Vec<String> = Vec::new();
        let mut i: usize = 0;
        while i < order.len()
            invariant
                i <= order@.len(),
                order@ == key_order(),
                views_of(freeze@) == keys_in(order@.subrange(0, i as int), ctx.freeze@),
            decreases order@.len() - i,
        {
            let ghost sub = order@.subrange(0, i + 1);
            assert(sub.drop_last() =~= order@.subrange(0, i as int));
            if crate::context::eco_in(&ctx.freeze, order[i]) {
                freeze.push(order[i].key().to_owned());
            }
            i = i + 1;
            assert(views_of(freeze@) =~= keys_in(order@.subrange(0, i as int), ctx.freeze@));
        }
        assert(order@.subrange(0, 7) =~= order@);
        OptionsLog {
            dry_run: ctx.dry_run,
            freeze,
            major: ctx.major,
            only: eco_keys(&ctx.only),
            skip: eco_keys(&ctx.skip),
        }
    }
}

/// Lexicographic order of texts, by character.
pub open spec fn text_lt(a: Seq<char>, b: Seq<char>) -> bool
    decreases a.len(),
{
    if a.len() == 0 {
        b.len() > 0
    } else if b.len() == 0 {
        false
    } else if a[0] != b[0] {
        a[0] < b[0]
    } else {
        text_lt(a.drop_first(), b.drop_first())
    }
}

/// The first character of an ecosystem's key.
pub open spec fn key_lead(e: Ecosystem) -> char {
    match e {
        Ecosystem::Actions => 'a',
        Ecosystem::Cargo => 'c',
        Ecosystem::Docker => 'd',
        Ecosystem::Npm => 'n',
        Ecosystem::PreCommit => 'p',
        Ecosystem::Requirements => 'r',
        Ecosystem::Uv => 'u',
    }
}

proof fn lemma_key_lead(e: Ecosystem)
    ensures
        key_of(e).len() > 0,
        key_of(e)[0] == key_lead(e),
{
    reveal_strlit("uv");
    reveal_strlit("requirements");
    reveal_strlit("npm");
    reveal_strlit("cargo");
    reveal_strlit("docker");
    reveal_strlit("actions");
    reveal_strlit("pre-commit");
}

/// The keys taken from a prefix of `key_order()` lead with strictly
/// increasing characters, none past the prefix's last one.
proof fn lemma_keys_in_leads(k: int, set: Seq<Ecosystem>)
    requires
        0 <= k <= 7,
    ensures
        forall|i: int|
            0 <= i < keys_in(key_order().subrange(0, k), set).len() ==> (#[trigger] keys_in(
                key_order().subrange(0, k),
                set,
            )[i]).len() > 0 && (k > 0 ==> keys_in(key_order().subrange(0, k), set)[i][0]
                <= key_lead(key_order()[k - 1])),
        forall|i: int, j: int|
            0 <= i < j < keys_in(key_order().subrange(0, k), set).len() ==> (#[trigger] keys_in(
                key_order().subrange(0, k),
                set,
            )[i])[0] < (#[trigger] keys_in(key_order().subrange(0, k), set)[j])[0],
    decreases k,
{
    if k > 0 {
        let order = key_order().subrange(0, k);
        assert(order.drop_last() =~= key_order().subrange(0, k - 1));
        lemma_keys_in_leads(k - 1, set);
        lemma_key_lead(order.last());
        let prev = keys_in(key_order().subrange(0, k - 1), set);
        let r = keys_in(order, set);
        if k > 1 {
            assert(key_lead(key_order()[k - 2]) < key_lead(key_order()[k - 1]));
        }
        assert forall|i: int| 0 <= i < prev.len() implies prev[i].len() > 0 && prev[i][0]
            < key_lead(key_order()[k - 1]) by {
            if k > 1 {
                assert(key_lead(key_order()[k - 2]) < key_lead(key_order()[k - 1]));
            }
        }
        assert forall|i: int| 0 <= i < r.len() implies #[trigger] r[i].len() > 0 && r[i][0]
            <= key_lead(key_order()[k - 1]) by {
            if i < prev.len() {
                assert(r[i] == prev[i]);
            }
        }
        assert forall|i: int, j: int| 0 <= i < j < r.len() implies (#[trigger] r[i])[0] < (
        #[trigger] r[j])[0] by {
            assert(r[i] == prev[i]);
            if j < prev.len() {
                assert(r[j] == prev[j]);
            }
        }
    }
}

/// The frozen ecosystems' keys in the JSON log come sorted and distinct.
pub proof fn law_logged_freeze_keys_sorted(set: Seq<Ecosystem>)
    ensures
        forall|i: int, j: int|
            0 <= i < j < keys_in(key_order(), set).len() ==> text_lt(
                #[trigger] keys_in(key_order(), set)[i],
                #[trigger] keys_in(key_order(), set)[j],
            ),
{
    lemma_keys_in_leads(7, set);
    assert(key_order().subrange(0, 7) =~= key_order());
}

/// What one outcome adds to the totals: its changes, one touched ecosystem
/// when it changed anything, one error when it failed.
pub open spec fn tallied(t: (nat, nat, nat), o: OutcomeView) -> (nat, nat, nat) {
    (
        if o.changes.len() > 0 { t.0 + o.changes.len() } else { t.0 },
        if o.changes.len() > 0 { t.1 + 1 } else { t.1 },
        if o.status == Status::Errored { t.2 + 1 } else { t.2 },
    )
}

impl SummaryLog {
    /// Totals of a run that has not recorded anything yet.
    pub fn new() -> (r: SummaryLog)
        ensures
            r.updated == 0 && r.ecosystems_touched == 0 && r.errors == 0,
    {
        SummaryLog { updated: 0, ecosystems_touched: 0, errors: 0 }
    }

    /// The totals as numbers.
    pub open spec fn totals(self) -> (nat, nat, nat) {
        (self.updated as nat, self.ecosystems_touched as nat, self.errors as nat)
    }

    /// Adds one ecosystem's outcome to the totals.
    pub fn record(&mut self, out: &UpdateOutcome)
        requires
            old(self).updated + out.changes@.len() <= usize::MAX,
            old(self).ecosystems_touched < usize::MAX,
            old(self).errors < usize::MAX,
        ensures
            final(self).totals() == tallied(old(self).totals(), out@),
            final(self).updated == old(self).updated + out.changes@.len(),
            final(self).ecosystems_touched == old(self).ecosystems_touched + (if out.changes@.len()
                > 0 {
                1int
            } else {
                0int
            }),
            final(self).errors == old(self).errors + (if out.status == Status::Errored {
                1int
            } else {
                0int
            }),
    {
        if out.changes.len() > 0 {
            self.updated = self.updated + out.changes.len();
            self.ecosystems_touched = self.ecosystems_touched + 1;
        }
        if out.status == Status::Errored {
            self.errors = self.errors + 1;
        }
    }

    /// The process exit code: 1 when any ecosystem failed, else 0.
    pub fn exit_code(&self) -> (r: i32)
        ensures
            r == (if self.errors > 0 { 1i32 } else { 0i32 }),
    {
        if self.errors > 0 {
            1
        } else {
            0
        }
    }
}

impl RunLog {
    /// The log of a run of this tool, version `version`, over `repo_root`.
    pub fn new(
        version: String,
        repo_root: String,
        options: OptionsLog,
        ecosystems: Vec<EcoLog>,
        held_back_majors: Vec<HeldBackMajor>,
        summary: SummaryLog,
    ) -> (r: RunLog)
        ensures
            r.tool@ == "clockpin"@,
            r.version@ == version@,
            r.repo_root@ == repo_root@,
            r.options == options,
            r.ecosystems == ecosystems,
            r.held_back_majors == held_back_majors,
            r.summary == summary,
    {
        RunLog {
            tool: "clockpin".to_owned(),
            version,
            repo_root,
            options,
            ecosystems,
            held_back_majors,
            summary,
        }
    }
}

} // verus!
