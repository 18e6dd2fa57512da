//! The per-ecosystem updaters and their shared result types.
//!
//! Each updater is a state machine: it is started with the run context and
//! what detection found, and answers every event (a tool found or not, a
//! command's output, a file rewritten or written) with the next piece of
//! outside work to do, until it is done with an [`UpdateOutcome`].

use vstd::prelude::*;

use crate::context::{CmdOutput, Ecosystem};
use crate::report::{change_views, Change, ChangeView, HeldBackMajor, Status};

pub mod cargo;
pub mod docker;
pub mod github_actions;
pub mod npm;
pub mod pre_commit;
pub mod python_requirements;
pub mod python_uv;

verus! {

/// Result of scanning a repo for one ecosystem's manifests.
pub enum Detection {
    Present { targets: Vec<String> },
    Absent { reason: String },
}

/// What an updater did (or would do).
pub struct UpdateOutcome {
    pub status: Status,
    pub changes: Vec<Change>,
    pub warnings: Vec<String>,
    pub errors: Vec<String>,
    pub held_back: Vec<HeldBackMajor>,
}

/// The views of a sequence of strings.
pub open spec fn strings_view(v: Seq<String>) -> Seq<Seq<char>> {
    v.map_values(|s: String| s@)
}

/// The mathematical content of an [`UpdateOutcome`].
pub struct OutcomeView {
    pub status: Status,
    pub changes: Seq<ChangeView>,
    pub warnings: Seq<Seq<char>>,
    pub errors: Seq<Seq<char>>,
    pub held_back: nat,
}

impl View for UpdateOutcome {
    type V = OutcomeView;

    open spec fn view(&self) -> OutcomeView {
        OutcomeView {
            status: self.status,
            changes: change_views(self.changes@),
            warnings: strings_view(self.warnings@),
            errors: strings_view(self.errors@),
            held_back: self.held_back@.len(),
        }
    }
}

/// An outcome with `status` and nothing else.
pub open spec fn bare(status: Status) -> OutcomeView {
    OutcomeView { status, changes: seq![], warnings: seq![], errors: seq![], held_back: 0 }
}

/// Status of an applied run: up to date when nothing changed.
pub open spec fn applied_status(changes: Seq<ChangeView>) -> Status {
    if changes.len() == 0 {
        Status::UpToDate
    } else {
        Status::Applied
    }
}

/// The outcome of an applied run with `changes`.
pub open spec fn applied_view(changes: Seq<ChangeView>) -> OutcomeView {
    OutcomeView { changes, ..bare(applied_status(changes)) }
}

/// An outcome with `status` and one warning.
pub open spec fn warned_view(status: Status, msg: Seq<char>) -> OutcomeView {
    OutcomeView { warnings: seq![msg], ..bare(status) }
}

/// An errored outcome with one error.
pub open spec fn errored_view(msg: Seq<char>) -> OutcomeView {
    OutcomeView { errors: seq![msg], ..bare(Status::Errored) }
}

impl UpdateOutcome {
    /// An outcome with `status` and nothing else.
    pub fn new(status: Status) -> (o: Self)
        ensures
            o@ == bare(status),
    {
        let o = UpdateOutcome {
            status,
            changes: Vec::new(),
            warnings: Vec::new(),
            errors: Vec::new(),
            held_back: Vec::new(),
        };
        assert(o@.changes =~= seq![]);
        assert(o@.warnings =~= seq![]);
        assert(o@.errors =~= seq![]);
        o
    }

    /// An applied run: `UpToDate` when `changes` is empty, else `Applied`.
    pub fn applied(changes: Vec<Change>) -> (o: Self)
        ensures
            o@ == applied_view(change_views(changes@)),
    {
        let status = if changes.len() == 0 {
            Status::UpToDate
        } else {
            Status::Applied
        };
        let mut o = UpdateOutcome::new(status);
        o.changes = changes;
        o
    }

    /// Nothing to update: the manifests are absent.
    pub fn not_present(reason: &str) -> (o: Self)
        ensures
            o@ == warned_view(Status::NotPresent, reason@),
    {
        let mut o = UpdateOutcome::new(Status::NotPresent);
        o.warnings.push(reason.to_owned());
        assert(o@.warnings =~= seq![reason@]);
        o
    }

    /// Skipped with a warning.
    pub fn warned(msg: &str) -> (o: Self)
        ensures
            o@ == warned_view(Status::Warned, msg@),
    {
        let mut o = UpdateOutcome::new(Status::Warned);
        o.warnings.push(msg.to_owned());
        assert(o@.warnings =~= seq![msg@]);
        o
    }

    /// Failed with an error.
    pub fn errored(msg: &str) -> (o: Self)
        ensures
            o@ == errored_view(msg@),
    {
        let mut o = UpdateOutcome::new(Status::Errored);
        o.errors.push(msg.to_owned());
        assert(o@.errors =~= seq![msg@]);
        o
    }
}

/// The status of a run over several files: failed when any file failed, else
/// up to date when nothing changed, else would-change in a dry run, else applied.
pub open spec fn batch_status(changes: Seq<ChangeView>, errors: Seq<Seq<char>>, dry_run: bool) -> Status {
    if errors.len() > 0 {
        Status::Errored
    } else if changes.len() == 0 {
        Status::UpToDate
    } else if dry_run {
        Status::WouldChange
    } else {
        Status::Applied
    }
}

/// The outcome of a run over several files: what changed, and what failed.
pub open spec fn batch_outcome(changes: Seq<ChangeView>, errors: Seq<Seq<char>>, dry_run: bool) -> OutcomeView {
    OutcomeView {
        status: batch_status(changes, errors, dry_run),
        changes,
        warnings: seq![],
        errors,
        held_back: 0,
    }
}

/// The next piece of outside work an updater asks for.
pub enum Step {
    /// Is `program` on PATH? Answer with [`Event::Found`].
    Which(String),
    /// Run `program args…` in the repository root. Answer with [`Event::Ran`].
    Run(String, Vec<String>),
    /// Read the file at the path and rewrite its pins (frozen when the flag is
    /// set). Answer with [`Event::Rewritten`] or [`Event::Unreadable`].
    Rewrite(String, bool),
    /// Read `uv.lock` and `pyproject.toml` in the package directory. Answer
    /// with [`Event::Read`].
    ReadProject(String),
    /// Write the text to the file at the path. Answer with [`Event::Wrote`].
    Write(String, String),
    /// Finished.
    Done(UpdateOutcome),
}

/// The answer to a [`Step`].
pub enum Event {
    Found(bool),
    Ran(Result<CmdOutput, String>),
    Rewritten(String, Vec<Change>),
    Unreadable,
    /// Contents of `uv.lock` and `pyproject.toml`, `None` when unreadable.
    Read(Option<String>, Option<String>),
    Wrote(Result<(), String>),
}

/// The mathematical content of a [`Step`].
pub enum StepView {
    Which(Seq<char>),
    Run(Seq<char>, Seq<Seq<char>>),
    Rewrite(Seq<char>, bool),
    ReadProject(Seq<char>),
    Write(Seq<char>, Seq<char>),
    Done(OutcomeView),
}

impl View for Step {
    type V = StepView;

    open spec fn view(&self) -> StepView {
        match self {
            Step::Which(p) => StepView::Which(p@),
            Step::Run(p, a) => StepView::Run(p@, strings_view(a@)),
            Step::Rewrite(p, f) => StepView::Rewrite(p@, *f),
            Step::ReadProject(p) => StepView::ReadProject(p@),
            Step::Write(p, t) => StepView::Write(p@, t@),
            Step::Done(o) => StepView::Done(o@),
        }
    }
}

/// Whether a step touches the repository: runs a tool or writes a file.
pub open spec fn touches_repo(s: StepView) -> bool {
    s is Run || s is Write
}

/// The strings of `v`, owned.
pub fn owned_args(v: &[&str]) -> (r: Vec<String>)
    ensures
        strings_view(r@) == v@.map_values(|s: &str| s@),
{
    let mut out: Vec<String> = Vec::new();
    let mut i: usize = 0;
    while i < v.len()
        invariant
            i <= v@.len(),
            out@.len() == i,
            strings_view(out@) == v@.subrange(0, i as int).map_values(|s: &str| s@),
        decreases v@.len() - i,
    {
        let a = v[i].to_owned();
        assert(a@ == v@[i as int]@);
        let ghost before = out@;
        out.push(a);
        proof {
            assert forall|j: int| 0 <= j < i + 1 implies #[trigger] strings_view(out@)[j]
                == v@.subrange(0, i + 1).map_values(|s: &str| s@)[j] by {
                if j < i {
                    assert(out@[j] == before[j]);
                    assert(strings_view(before)[j] == v@.subrange(0, i as int).map_values(
                        |s: &str| s@,
                    )[j]);
                }
            }
        }
        i = i + 1;
        assert(strings_view(out@) =~= v@.subrange(0, i as int).map_values(|s: &str| s@));
    }
    assert(v@.subrange(0, v@.len() as int) =~= v@);
    out
}

/// `path` joined with the relative file `name` (`path/name`).
pub open spec fn joined(path: Seq<char>, name: Seq<char>) -> Seq<char> {
    if path.len() == 0 || path.last() == '/' {
        path + name
    } else {
        path + seq!['/'] + name
    }
}

/// `path` joined with the relative file `name`.
pub fn path_join(path: &str, name: &str) -> (r: String)
    ensures
        r@ == joined(path@, name@),
{
    let mut v = crate::text::chars_of(path);
    let slash = v.len() == 0 || v[v.len() - 1] == '/';
    if !slash {
        v.push('/');
    }
    crate::scan::push_str(&mut v, name);
    crate::text::string_of(v.as_slice())
}

/// All updaters, in run order.
pub fn all() -> (r: Vec<Ecosystem>)
    ensures
        r@ == crate::context::run_order(),
{
    let v = vec![
        Ecosystem::Uv,
        Ecosystem::Requirements,
        Ecosystem::Npm,
        Ecosystem::Cargo,
        Ecosystem::Docker,
        Ecosystem::Actions,
        Ecosystem::PreCommit,
    ];
    assert(v@ =~= crate::context::run_order());
    v
}

/// Moves every change of `src` to the end of `dst`.
pub fn extend_changes(dst: &mut Vec<Change>, src: Vec<Change>)
    ensures
        change_views(final(dst)@) == change_views(old(dst)@) + change_views(src@),
{
    let mut src = src;
    let ghost s0 = src@;
    dst.append(&mut src);
    assert(change_views(dst@) =~= change_views(old(dst)@) + change_views(s0));
}

/// A copy of `v`.
pub fn copy_strings(v: &Vec<String>) -> (r: Vec<String>)
    ensures
        r@ == v@,
{
    let mut out: Vec<String> = Vec::new();
    let mut i: usize = 0;
    while i < v.len()
        invariant
            i <= v@.len(),
            out@ == v@.subrange(0, i as int),
        decreases v@.len() - i,
    {
        out.push(v[i].clone());
        i = i + 1;
        assert(out@ =~= v@.subrange(0, i as int));
    }
    assert(v@.subrange(0, v@.len() as int) =~= v@);
    out
}

/// One ecosystem updater.
pub trait Updater {
    /// The ecosystem this updater keeps current.
    fn ecosystem(&self) -> Ecosystem;
}

/// What detection reports for the files a scan found.
pub open spec fn detected_files(d: Detection, found: Seq<String>, reason: Seq<char>) -> bool {
    if found.len() > 0 {
        d matches Detection::Present { targets } && targets@ == found
    } else {
        d matches Detection::Absent { reason: r } && r@ == reason
    }
}

/// Present with the files found, or absent for `reason` when there are none.
pub fn detect_files(found: Vec<String>, reason: &str) -> (d: Detection)
    ensures
        detected_files(d, found@, reason@),
{
    if found.len() > 0 {
        Detection::Present { targets: found }
    } else {
        Detection::Absent { reason: reason.to_owned() }
    }
}

/// What detection reports for one manifest file.
pub open spec fn detected_file(d: Detection, path: Seq<char>, is_file: bool, reason: Seq<char>) -> bool {
    if is_file {
        d matches Detection::Present { targets } && targets@.len() == 1 && targets@[0]@ == path
    } else {
        d matches Detection::Absent { reason: r } && r@ == reason
    }
}

/// Present with the manifest when it is a file, else absent for `reason`.
pub fn detect_file(path: String, is_file: bool, reason: &str) -> (d: Detection)
    ensures
        detected_file(d, path@, is_file, reason@),
{
    if is_file {
        Detection::Present { targets: vec![path] }
    } else {
        Detection::Absent { reason: reason.to_owned() }
    }
}

/// Directories that manifest discovery never descends into.
pub open spec fn skipped_dir(name: Seq<char>) -> bool {
    name == ".git"@ || name == "target"@ || name == "node_modules"@ || name == ".venv"@
}

/// Whether discovery skips a directory called `name`.
pub fn is_skipped_dir(name: &str) -> (r: bool)
    ensures
        r == skipped_dir(name@),
{
    crate::context::str_eq(name, ".git") || crate::context::str_eq(name, "target")
        || crate::context::str_eq(name, "node_modules") || crate::context::str_eq(name, ".venv")
}

} // verus!
