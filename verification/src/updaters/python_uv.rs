//! uv-managed Python packages: `uv lock --upgrade`, then raise each `>=` lower
//! bound in pyproject.toml to the locked version, then `uv sync`.

use vstd::prelude::*;

use crate::context::{CmdOutput, Ecosystem, RunCtx};
use crate::report::{change_views, Change, ChangeKind, ChangeView, Status};
use crate::scan::{
    class_has, class_run, class_run_len, in_class, lemma_class_run, lemma_space_run, push_range,
    push_str, space_run, space_run_len, ALNUM, ALNUM_DOT_DASH, DIGIT, NOT_CLOSE_BRACKET,
    NOT_QUOTE_OR_NEWLINE, VERSION_CHARS,
};
use crate::text::{chars_of, concat, matches_at, occurs_at, string_of, trim, trimmed};
use crate::updaters::{
    batch_outcome, batch_status, copy_strings, detect_files, detected_files, extend_changes, joined, path_join, strings_view,
    touches_repo, warned_view, Detection, Event, OutcomeView, Step, StepView, UpdateOutcome,
    Updater,
};
use crate::version::{key_less, key_lt, normalize, normalized, version_key, version_key_of};

verus! {

// ---------------------------------------------------------------------------
// Locked versions
// ---------------------------------------------------------------------------

/// Package name → locked version. A later entry for a name replaces an
/// earlier one.
pub struct LockMap {
    entries: Vec<(String, String)>,
}

/// The map that a list of `(name, version)` insertions builds.
pub open spec fn pairs_map(s: Seq<(String, String)>) -> Map<Seq<char>, Seq<char>>
    decreases s.len(),
{
    if s.len() == 0 {
        Map::empty()
    } else {
        pairs_map(s.drop_last()).insert(s.last().0@, s.last().1@)
    }
}

impl View for LockMap {
    type V = Map<Seq<char>, Seq<char>>;

    closed spec fn view(&self) -> Map<Seq<char>, Seq<char>> {
        pairs_map(self.entries@)
    }
}

impl LockMap {
    /// The empty map.
    pub fn new() -> (m: LockMap)
        ensures
            m@ == Map::<Seq<char>, Seq<char>>::empty(),
    {
        LockMap { entries: Vec::new() }
    }

    /// Maps `name` to `version`, replacing any earlier version.
    pub fn insert(&mut self, name: String, version: String)
        ensures
            final(self)@ == old(self)@.insert(name@, version@),
    {
        self.entries.push((name, version));
        proof {
            assert(self.entries@.drop_last() =~= old(self).entries@);
        }
    }

    /// The version locked for `name`, if any.
    pub fn get(&self, name: &String) -> (r: Option<&String>)
        ensures
            match r {
                Some(v) => self@.contains_key(name@) && self@[name@] == v@,
                None => !self@.contains_key(name@),
            },
    {
        let mut j = self.entries.len();
        assert(self.entries@.subrange(0, j as int) =~= self.entries@);
        while j > 0
            invariant
                j <= self.entries@.len(),
                forall|t: int| j <= t < self.entries@.len() ==> self.entries@[t].0@ != name@,
                pairs_map(self.entries@).contains_key(name@) == pairs_map(
                    self.entries@.subrange(0, j as int),
                ).contains_key(name@),
                pairs_map(self.entries@).contains_key(name@) ==> pairs_map(self.entries@)[name@]
                    == pairs_map(self.entries@.subrange(0, j as int))[name@],
            decreases j,
        {
            let ghost pre = self.entries@.subrange(0, j as int);
            assert(pre.drop_last() =~= self.entries@.subrange(0, j - 1));
            if self.entries[j - 1].0 == *name {
                assert(pre.last() == self.entries@[j - 1]);
                return Some(&self.entries[j - 1].1);
            }
            j = j - 1;
        }
        None
    }
}

/// What a TOML value holds, as plain values: strings, arrays and tables
/// (keyed by their keys); every other kind of value (integers, floats,
/// booleans, datetimes) is `Other`.
pub enum TomlModel {
    Str(Seq<char>),
    Array(Seq<TomlModel>),
    Table(Map<Seq<char>, TomlModel>),
    Other,
}

/// The document the `toml` crate parses from `text`, or `None` when it
/// rejects the text.
pub uninterp spec fn toml_document(text: Seq<char>) -> Option<TomlModel>;

/// What a parsed `toml::Value` holds.
pub uninterp spec fn toml_contents(v: toml::Value) -> TomlModel;

/// A parsed TOML value of the `toml` crate, read through the wrappers below.
#[verifier::external_type_specification]
#[verifier::external_body]
pub struct ExTomlValue(toml::Value);

/// `toml::from_str::<toml::Value>`: parses a TOML document. It succeeds
/// exactly when the crate accepts the text, and the value holds the parsed
/// document.
#[verifier::external_body]
fn toml_parse(text: &str) -> (r: Option<toml::Value>)
    ensures
        r is Some <==> toml_document(text@) is Some,
        r matches Some(v) ==> toml_document(text@) == Some(toml_contents(v)),
{
    toml::from_str::<toml::Value>(text).ok()
}

/// `toml::Value::get` with a string key: the table's entry for `key`; `None`
/// when the key is missing or the value is not a table.
#[verifier::external_body]
fn toml_get<'a>(v: &'a toml::Value, key: &str) -> (r: Option<&'a toml::Value>)
    ensures
        match toml_contents(*v) {
            TomlModel::Table(t) => if t.contains_key(key@) {
                r matches Some(x) && toml_contents(*x) == t[key@]
            } else {
                r is None
            },
            _ => r is None,
        },
{
    v.get(key)
}

/// `toml::Value::as_array`: the items of an array; `None` for other values.
#[verifier::external_body]
fn toml_as_array(v: &toml::Value) -> (r: Option<&Vec<toml::Value>>)
    ensures
        match toml_contents(*v) {
            TomlModel::Array(items) => r matches Some(a) && a@.map_values(
                |x: toml::Value| toml_contents(x),
            ) == items,
            _ => r is None,
        },
{
    v.as_array()
}

/// `toml::Value::as_str`: the text of a string; `None` for other values.
#[verifier::external_body]
fn toml_as_str(v: &toml::Value) -> (r: Option<&str>)
    ensures
        match toml_contents(*v) {
            TomlModel::Str(t) => r matches Some(x) && x@ == t,
            _ => r is None,
        },
{
    v.as_str()
}

/// The name and version of a `[[package]]` entry, when both are strings.
pub open spec fn package_entry(p: TomlModel) -> Option<(Seq<char>, Seq<char>)> {
    match p {
        TomlModel::Table(t) => if t.contains_key("name"@) && t.contains_key("version"@) {
            match (t["name"@], t["version"@]) {
                (TomlModel::Str(n), TomlModel::Str(v)) => Some((n, v)),
                _ => None,
            }
        } else {
            None
        },
        _ => None,
    }
}

/// The locked versions of the `[[package]]` entries `items`, by normalized
/// name; a later entry for a name replaces an earlier one.
pub open spec fn packages_map(items: Seq<TomlModel>) -> Map<Seq<char>, Seq<char>>
    decreases items.len(),
{
    if items.len() == 0 {
        Map::empty()
    } else {
        let m = packages_map(items.drop_last());
        match package_entry(items.last()) {
            Some((n, v)) => m.insert(normalized(n), v),
            None => m,
        }
    }
}

/// The locked versions in a parsed uv.lock document: those of its `package`
/// array; none when the text did not parse or holds no such array.
pub open spec fn lock_packages(doc: Option<TomlModel>) -> Map<Seq<char>, Seq<char>> {
    match doc {
        Some(TomlModel::Table(t)) => if t.contains_key("package"@) {
            match t["package"@] {
                TomlModel::Array(items) => packages_map(items),
                _ => Map::empty(),
            }
        } else {
            Map::empty()
        },
        _ => Map::empty(),
    }
}

/// The locked version of each `[[package]]` in a uv.lock text, keyed by the
/// normalized package name. A text that does not parse yields no entry.
pub fn locked_versions(uv_lock_text: &str) -> (m: LockMap)
    ensures
        m@ == lock_packages(toml_document(uv_lock_text@)),
{
    let mut map = LockMap::new();
    let doc = match toml_parse(uv_lock_text) {
        Some(d) => d,
        None => {
            return map;
        },
    };
    let pkgs = match toml_get(&doc, "package") {
        Some(p) => match toml_as_array(p) {
            Some(a) => a,
            None => {
                return map;
            },
        },
        None => {
            return map;
        },
    };
    let ghost items = pkgs@.map_values(|x: toml::Value| toml_contents(x));
    assert(lock_packages(toml_document(uv_lock_text@)) == packages_map(items));
    let mut i: usize = 0;
    while i < pkgs.len()
        invariant
            i <= pkgs@.len(),
            items == pkgs@.map_values(|x: toml::Value| toml_contents(x)),
            map@ == packages_map(items.subrange(0, i as int)),
        decreases pkgs.len() - i,
    {
        let p = &pkgs[i];
        let ghost sub = items.subrange(0, i + 1);
        assert(sub.drop_last() =~= items.subrange(0, i as int));
        assert(sub.last() == toml_contents(*p));
        match (toml_get(p, "name"), toml_get(p, "version")) {
            (Some(n), Some(v)) => match (toml_as_str(n), toml_as_str(v)) {
                (Some(n), Some(v)) => {
                    let key = normalize(n);
                    map.insert(key, v.to_owned());
                },
                _ => {},
            },
            _ => {},
        }
        i = i + 1;
    }
    assert(items.subrange(0, pkgs@.len() as int) =~= items);
    map
}

// ---------------------------------------------------------------------------
// The run
// ---------------------------------------------------------------------------

/// The uv updater.
pub struct PythonUv;

impl Updater for PythonUv {
    fn ecosystem(&self) -> (e: Ecosystem)
        ensures
            e == Ecosystem::Uv,
    {
        Ecosystem::Uv
    }
}

impl PythonUv {
    /// Present with the package directories found (each holds `pyproject.toml` and `uv.lock`), absent when there are none.
    pub fn detect(&self, found: Vec<String>) -> (d: Detection)
        ensures
            detected_files(d, found@, "no pyproject.toml + uv.lock"@),
    {
        detect_files(found, "no pyproject.toml + uv.lock")
    }
}

pub open spec fn msg_no_uv() -> Seq<char> {
    "`uv` not on PATH — skipped"@
}

/// `parts` joined by single spaces.
pub open spec fn space_joined(parts: Seq<Seq<char>>) -> Seq<char>
    decreases parts.len(),
{
    if parts.len() == 0 {
        seq![]
    } else if parts.len() == 1 {
        parts[0]
    } else {
        space_joined(parts.drop_last()) + seq![' '] + parts.last()
    }
}

/// The message for a failed `uv` command, or `None` when it succeeded.
pub open spec fn uv_failure(args: Seq<Seq<char>>, res: Result<CmdOutput, String>) -> Option<Seq<char>> {
    match res {
        Ok(o) => if o.status == 0 {
            None
        } else {
            Some("uv "@ + space_joined(args) + ": "@ + trimmed(o.stderr@))
        },
        Err(e) => Some(e@),
    }
}

/// The strings of `parts` joined by single spaces.
fn join_spaced(parts: &Vec<String>) -> (r: String)
    ensures
        r@ == space_joined(strings_view(parts@)),
{
    let mut out = String::new();
    let mut i: usize = 0;
    while i < parts.len()
        invariant
            i <= parts@.len(),
            out@ == space_joined(strings_view(parts@.subrange(0, i as int))),
        decreases parts@.len() - i,
    {
        let ghost a = parts@.subrange(0, i + 1);
        proof {
            assert(a.drop_last() =~= parts@.subrange(0, i as int));
            assert(strings_view(a).drop_last() =~= strings_view(parts@.subrange(0, i as int)));
            assert(strings_view(a).len() == i + 1);
            assert(strings_view(a).last() == parts@[i as int]@);
        }
        proof {
            reveal_strlit(" ");
        }
        if i == 0 {
            out = parts[0].clone();
            assert(strings_view(a) =~= seq![parts@[0]@]);
        } else {
            let t = concat(out.as_str(), " ");
            out = concat(t.as_str(), parts[i].as_str());
        }
        i = i + 1;
        assert(a == parts@.subrange(0, i as int));
    }
    assert(parts@.subrange(0, parts@.len() as int) =~= parts@);
    out
}

/// Whether a `uv` command failed, and how to report it.
pub fn run_uv_result(args: &Vec<String>, res: Result<CmdOutput, String>) -> (r: Result<(), String>)
    ensures
        match r {
            Ok(()) => uv_failure(strings_view(args@), res) is None,
            Err(m) => uv_failure(strings_view(args@), res) == Some(m@),
        },
{
    match res {
        Ok(o) => {
            if o.ok() {
                Ok(())
            } else {
                let joined_args = join_spaced(args);
                let head = concat("uv ", joined_args.as_str());
                let head = concat(head.as_str(), ": ");
                let t = trim(o.stderr.as_str());
                Err(concat(head.as_str(), t.as_str()))
            }
        },
        Err(e) => Err(e),
    }
}

/// Where a uv run stands.
#[derive(Clone, Copy, PartialEq, Eq, Structural)]
pub enum UvPhase {
    AwaitWhich,
    AwaitLockUpgrade,
    AwaitRead,
    AwaitWrite,
    AwaitRelock,
    AwaitSync,
    Finished,
}

/// A uv run in progress over the package directories `targets`.
pub struct UvRun {
    pub phase: UvPhase,
    pub dry_run: bool,
    pub targets: Vec<String>,
    /// The package being handled.
    pub next: usize,
    pub changes: Vec<Change>,
    /// Changes of the package being handled, reported once it is synced.
    pub pending: Vec<Change>,
    pub warnings: Vec<String>,
    pub errors: Vec<String>,
}

/// The arguments of the `uv` commands run for package `pkg`.
pub open spec fn lock_upgrade_args(pkg: Seq<char>) -> Seq<Seq<char>> {
    seq!["lock"@, "--project"@, pkg, "--upgrade"@]
}

pub open spec fn relock_args(pkg: Seq<char>) -> Seq<Seq<char>> {
    seq!["lock"@, "--project"@, pkg]
}

pub open spec fn sync_args(pkg: Seq<char>) -> Seq<Seq<char>> {
    seq!["sync"@, "--project"@, pkg, "--all-groups"@]
}

/// How the run answers the contents of a package whose pyproject text is
/// `py_text` (holding `n` requirements) and whose locked versions are
/// `locked`: in a dry run the changes are recorded and the next package
/// starts; otherwise a changed pyproject is written, or the package is synced.
pub open spec fn read_handled(
    before: UvRun,
    after: UvRun,
    r: StepView,
    py_text: Seq<char>,
    locked: Map<Seq<char>, Seq<char>>,
    n: nat,
) -> bool {
    let bumped = bump_of(py_text, locked, n);
    let pkg = before.targets@[before.next as int]@;
    &&& has_n_reqs(py_text, n)
    &&& if before.dry_run {
        &&& after.next == before.next + 1
        &&& r == before.advance_at(
            before.next + 1,
            change_views(before.changes@) + bumped.1,
            strings_view(before.warnings@),
            strings_view(before.errors@),
        )
        &&& after.phase != UvPhase::Finished ==> {
            &&& change_views(after.changes@) == change_views(before.changes@) + bumped.1
            &&& after.warnings@ == before.warnings@
            &&& after.errors@ == before.errors@
        }
    } else if bumped.1.len() > 0 {
        &&& r == StepView::Write(joined(pkg, "pyproject.toml"@), bumped.0)
        &&& change_views(after.pending@) == bumped.1
        &&& after.next == before.next
        &&& keeps_lists(before, after)
    } else {
        &&& r == StepView::Run("uv"@, sync_args(pkg))
        &&& after.pending@.len() == 0
        &&& after.next == before.next
        &&& keeps_lists(before, after)
    }
}

/// The step a run in `phase` has asked for is of the right kind: a command
/// for the three `uv` phases, the package's files for a read, a write for a
/// write, the outcome once finished.
pub open spec fn uv_step_fits(phase: UvPhase, s: StepView) -> bool {
    match phase {
        UvPhase::AwaitWhich => s is Which,
        UvPhase::AwaitLockUpgrade | UvPhase::AwaitRelock | UvPhase::AwaitSync => s is Run,
        UvPhase::AwaitRead => s is ReadProject,
        UvPhase::AwaitWrite => s is Write,
        UvPhase::Finished => s is Done,
    }
}

/// `after` carries the changes, warnings and errors of `before` unchanged.
pub open spec fn keeps_lists(before: UvRun, after: UvRun) -> bool {
    &&& after.changes@ == before.changes@
    &&& after.warnings@ == before.warnings@
    &&& after.errors@ == before.errors@
}

/// The text read from a file; empty when it could not be read.
pub open spec fn text_or_empty(t: Option<String>) -> Seq<char> {
    match t {
        Some(s) => s@,
        None => seq![],
    }
}

/// How the run answers the event `ev` that brings a package's files: the
/// changes are those of raising the minimums in the pyproject text to the
/// versions of the lock text (a missing file reads as empty).
pub open spec fn read_answered(before: UvRun, after: UvRun, r: StepView, ev: Event) -> bool {
    match ev {
        Event::Read(lock, py) => exists|n: nat|
            #[trigger] read_handled(
                before,
                after,
                r,
                text_or_empty(py),
                lock_packages(toml_document(text_or_empty(lock))),
                n,
            ),
        _ => true,
    }
}

/// The outcome of a finished uv run.
pub open spec fn uv_outcome(
    changes: Seq<ChangeView>,
    warnings: Seq<Seq<char>>,
    errors: Seq<Seq<char>>,
    dry_run: bool,
) -> OutcomeView {
    OutcomeView { warnings, ..batch_outcome(changes, errors, dry_run) }
}

impl UvRun {
    pub open spec fn wf(self) -> bool {
        &&& self.next <= self.targets.len()
        &&& (self.phase != UvPhase::Finished && self.phase != UvPhase::AwaitWhich) ==> self.next
            < self.targets.len()
        &&& self.dry_run ==> (self.phase == UvPhase::AwaitWhich || self.phase == UvPhase::AwaitRead
            || self.phase == UvPhase::Finished)
    }

    /// The first step for package `next`, or the outcome once all are done.
    pub open spec fn advance_at(
        self,
        next: int,
        cv: Seq<ChangeView>,
        ws: Seq<Seq<char>>,
        es: Seq<Seq<char>>,
    ) -> StepView {
        if next < self.targets@.len() {
            if self.dry_run {
                StepView::ReadProject(self.targets@[next]@)
            } else {
                StepView::Run("uv"@, lock_upgrade_args(self.targets@[next]@))
            }
        } else {
            StepView::Done(uv_outcome(cv, ws, es, self.dry_run))
        }
    }

    /// How many steps the run may still take.
    pub open spec fn rank(self) -> nat {
        let files = self.targets@.len() - self.next;
        match self.phase {
            UvPhase::AwaitWhich => (6 * self.targets@.len() + 6) as nat,
            UvPhase::AwaitLockUpgrade => (6 * files) as nat,
            UvPhase::AwaitRead => (6 * files - 1) as nat,
            UvPhase::AwaitWrite => (6 * files - 2) as nat,
            UvPhase::AwaitRelock => (6 * files - 3) as nat,
            UvPhase::AwaitSync => (6 * files - 4) as nat,
            UvPhase::Finished => 0,
        }
    }

    /// Starts package `next`, or finishes.
    fn go_on(&mut self) -> (r: Step)
        requires
            old(self).next <= old(self).targets.len(),
        ensures
            r@ == old(self).advance_at(
                old(self).next as int,
                change_views(old(self).changes@),
                strings_view(old(self).warnings@),
                strings_view(old(self).errors@),
            ),
            final(self).next == old(self).next,
            final(self).targets@ == old(self).targets@,
            final(self).dry_run == old(self).dry_run,
            old(self).next < old(self).targets@.len() ==> {
                &&& final(self).changes@ == old(self).changes@
                &&& final(self).warnings@ == old(self).warnings@
                &&& final(self).errors@ == old(self).errors@
                &&& final(self).phase == (if old(self).dry_run {
                    UvPhase::AwaitRead
                } else {
                    UvPhase::AwaitLockUpgrade
                })
            },
            old(self).next >= old(self).targets@.len() ==> final(self).phase == UvPhase::Finished,
    {
        if self.next < self.targets.len() {
            let pkg = self.targets[self.next].clone();
            if self.dry_run {
                self.phase = UvPhase::AwaitRead;
                Step::ReadProject(pkg)
            } else {
                self.phase = UvPhase::AwaitLockUpgrade;
                let args = vec!["lock".to_owned(), "--project".to_owned(), pkg, "--upgrade".to_owned()];
                proof {
                    reveal_strlit("lock");
                }
                assert(strings_view(args@) =~= lock_upgrade_args(self.targets@[self.next as int]@));
                Step::Run("uv".to_owned(), args)
            }
        } else {
            self.phase = UvPhase::Finished;
            let mut changes = Vec::new();
            std::mem::swap(&mut changes, &mut self.changes);
            let mut errors = Vec::new();
            std::mem::swap(&mut errors, &mut self.errors);
            let mut warnings = Vec::new();
            std::mem::swap(&mut warnings, &mut self.warnings);
            let status = if errors.len() > 0 {
                Status::Errored
            } else if changes.len() == 0 {
                Status::UpToDate
            } else if self.dry_run {
                Status::WouldChange
            } else {
                Status::Applied
            };
            Step::Done(UpdateOutcome { status, changes, warnings, errors, held_back: Vec::new() })
        }
    }

    /// Records a failed command's message, if any.
    fn note(list: &mut Vec<String>, failure: Result<(), String>)
        ensures
            strings_view(final(list)@) == match failure {
                Ok(()) => strings_view(old(list)@),
                Err(m) => strings_view(old(list)@).push(m@),
            },
    {
        match failure {
            Ok(()) => {},
            Err(m) => {
                let ghost mv = m@;
                list.push(m);
                assert(strings_view(list@) =~= strings_view(old(list)@).push(mv));
            },
        }
    }

    /// Answers the last step and returns the next one.
    pub fn step(&mut self, ev: Event) -> (r: Step)
        requires
            old(self).wf(),
            old(self).phase != UvPhase::Finished,
            old(self).phase == UvPhase::AwaitWhich ==> ev is Found,
            old(self).phase == UvPhase::AwaitRead ==> ev is Read,
            old(self).phase == UvPhase::AwaitWrite ==> ev is Wrote,
            old(self).phase == UvPhase::AwaitLockUpgrade || old(self).phase == UvPhase::AwaitRelock
                || old(self).phase == UvPhase::AwaitSync ==> ev is Ran,
        ensures
            final(self).wf(),
            final(self).dry_run == old(self).dry_run,
            final(self).targets@ == old(self).targets@,
            final(self).rank() < old(self).rank(),
            uv_step_fits(final(self).phase, r@),
            final(self).phase != UvPhase::AwaitWhich,
            old(self).dry_run ==> !touches_repo(r@),
            old(self).phase == UvPhase::AwaitWhich ==> {
                &&& ev == Event::Found(false) ==> r@ == StepView::Done(
                    warned_view(Status::Warned, msg_no_uv()),
                )
                &&& ev == Event::Found(true) ==> final(self).next == 0 && r@ == old(self).advance_at(
                    0,
                    change_views(old(self).changes@),
                    strings_view(old(self).warnings@),
                    strings_view(old(self).errors@),
                )
                &&& ev == Event::Found(true) && final(self).phase != UvPhase::Finished ==> keeps_lists(
                    *old(self),
                    *final(self),
                )
            },
            old(self).phase == UvPhase::AwaitLockUpgrade ==> match ev {
                Event::Ran(res) => match uv_failure(
                    lock_upgrade_args(old(self).targets@[old(self).next as int]@),
                    res,
                ) {
                    None => {
                        &&& r@ == StepView::ReadProject(old(self).targets@[old(self).next as int]@)
                        &&& final(self).next == old(self).next
                        &&& keeps_lists(*old(self), *final(self))
                    },
                    Some(m) => {
                        &&& final(self).next == old(self).next + 1
                        &&& r@ == old(self).advance_at(
                            old(self).next + 1,
                            change_views(old(self).changes@),
                            strings_view(old(self).warnings@),
                            strings_view(old(self).errors@).push(m),
                        )
                        &&& final(self).phase != UvPhase::Finished ==> {
                            &&& final(self).changes@ == old(self).changes@
                            &&& final(self).warnings@ == old(self).warnings@
                            &&& strings_view(final(self).errors@) == strings_view(
                                old(self).errors@,
                            ).push(m)
                        }
                    },
                },
                _ => true,
            },
            old(self).phase == UvPhase::AwaitRead ==> read_answered(*old(self), *final(self), r@, ev),
            old(self).phase == UvPhase::AwaitWrite ==> match ev {
                Event::Wrote(Ok(())) => {
                    &&& r@ == StepView::Run(
                        "uv"@,
                        relock_args(old(self).targets@[old(self).next as int]@),
                    )
                    &&& final(self).next == old(self).next
                    &&& final(self).pending@ == old(self).pending@
                    &&& keeps_lists(*old(self), *final(self))
                },
                Event::Wrote(Err(e)) => {
                    &&& final(self).next == old(self).next + 1
                    &&& r@ == old(self).advance_at(
                        old(self).next + 1,
                        change_views(old(self).changes@),
                        strings_view(old(self).warnings@),
                        strings_view(old(self).errors@).push(
                            "write "@ + joined(
                                old(self).targets@[old(self).next as int]@,
                                "pyproject.toml"@,
                            ) + ": "@ + e@,
                        ),
                    )
                    &&& final(self).phase != UvPhase::Finished ==> {
                        &&& final(self).changes@ == old(self).changes@
                        &&& final(self).warnings@ == old(self).warnings@
                        &&& strings_view(final(self).errors@) == strings_view(
                            old(self).errors@,
                        ).push(
                            "write "@ + joined(
                                old(self).targets@[old(self).next as int]@,
                                "pyproject.toml"@,
                            ) + ": "@ + e@,
                        )
                    }
                },
                _ => true,
            },
            old(self).phase == UvPhase::AwaitRelock ==> match ev {
                Event::Ran(res) => r@ == StepView::Run(
                    "uv"@,
                    sync_args(old(self).targets@[old(self).next as int]@),
                ) && strings_view(final(self).warnings@) == match uv_failure(
                    relock_args(old(self).targets@[old(self).next as int]@),
                    res,
                ) {
                    Some(m) => strings_view(old(self).warnings@).push(m),
                    None => strings_view(old(self).warnings@),
                } && final(self).next == old(self).next && final(self).pending@ == old(
                    self,
                ).pending@ && final(self).changes@ == old(self).changes@ && final(self).errors@
                    == old(self).errors@,
                _ => true,
            },
            old(self).phase == UvPhase::AwaitSync ==> match ev {
                Event::Ran(res) => final(self).next == old(self).next + 1 && r@ == old(self).advance_at(
                    old(self).next + 1,
                    change_views(old(self).changes@) + change_views(old(self).pending@),
                    match uv_failure(sync_args(old(self).targets@[old(self).next as int]@), res) {
                        Some(m) => strings_view(old(self).warnings@).push(m),
                        None => strings_view(old(self).warnings@),
                    },
                    strings_view(old(self).errors@),
                ) && (final(self).phase != UvPhase::Finished ==> {
                    &&& change_views(final(self).changes@) == change_views(old(self).changes@)
                        + change_views(old(self).pending@)
                    &&& strings_view(final(self).warnings@) == match uv_failure(
                        sync_args(old(self).targets@[old(self).next as int]@),
                        res,
                    ) {
                        Some(m) => strings_view(old(self).warnings@).push(m),
                        None => strings_view(old(self).warnings@),
                    }
                    &&& final(self).errors@ == old(self).errors@
                }),
                _ => true,
            },
    {
        let ghost before = *self;
        let ghost ev0 = ev;
        let phase = self.phase;
        match phase {
            UvPhase::AwaitWhich => {
                let found = match ev {
                    Event::Found(f) => f,
                    _ => false,
                };
                if !found {
                    self.phase = UvPhase::Finished;
                    return Step::Done(UpdateOutcome::warned("`uv` not on PATH — skipped"));
                }
                self.next = 0;
                self.go_on()
            },
            UvPhase::AwaitLockUpgrade => {
                let pkg = self.targets[self.next].clone();
                let args = vec!["lock".to_owned(), "--project".to_owned(), pkg, "--upgrade".to_owned()];
                assert(strings_view(args@) =~= lock_upgrade_args(self.targets@[self.next as int]@));
                let res = match ev {
                    Event::Ran(res) => res,
                    _ => Err(String::new()),
                };
                match run_uv_result(&args, res) {
                    Ok(()) => {
                        self.phase = UvPhase::AwaitRead;
                        Step::ReadProject(self.targets[self.next].clone())
                    },
                    Err(m) => {
                        let ghost mv = m@;
                        let ghost before = strings_view(self.errors@);
                        self.errors.push(m);
                        assert(strings_view(self.errors@) =~= before.push(mv));
                        self.next = self.next + 1;
                        self.go_on()
                    },
                }
            },
            UvPhase::AwaitRead => {
                let (lock, py) = match ev {
                    Event::Read(lock, py) => (lock, py),
                    _ => (None, None),
                };
                let ghost lock0 = lock;
                let ghost py0 = py;
                let lock_text = match lock {
                    Some(t) => t,
                    None => String::new(),
                };
                let py_text = match py {
                    Some(t) => t,
                    None => String::new(),
                };
                assert(ev0 == Event::Read(lock0, py0));
                let ghost lt = text_or_empty(lock0);
                let ghost pt = text_or_empty(py0);
                assert(lock_text@ == lt);
                assert(py_text@ == pt);
                let locked = locked_versions(lock_text.as_str());
                let (new_py, changes) = bump_minimums(py_text.as_str(), &locked);
                let ghost n = choose|n: nat|
                    {
                        &&& has_n_reqs(py_text@, n)
                        &&& new_py@ == bump_of(py_text@, locked@, n).0
                        &&& change_views(changes@) == bump_of(py_text@, locked@, n).1
                    };
                assert(has_n_reqs(py_text@, n));
                if self.dry_run {
                    extend_changes(&mut self.changes, changes);
                    self.next = self.next + 1;
                    let r = self.go_on();
                    assert(read_handled(before, *self, r@, py_text@, locked@, n));
                    assert(read_answered(before, *self, r@, ev0));
                    return r;
                }
                if changes.len() > 0 {
                    self.phase = UvPhase::AwaitWrite;
                    self.pending = changes;
                    let path = path_join(self.targets[self.next].as_str(), "pyproject.toml");
                    let r = Step::Write(path, new_py);
                    assert(read_handled(before, *self, r@, py_text@, locked@, n));
                    assert(read_answered(before, *self, r@, ev0));
                    r
                } else {
                    self.phase = UvPhase::AwaitSync;
                    self.pending = Vec::new();
                    assert(change_views(self.pending@) =~= seq![]);
                    let pkg = self.targets[self.next].clone();
                    let args = vec!["sync".to_owned(), "--project".to_owned(), pkg, "--all-groups".to_owned()];
                    assert(strings_view(args@) =~= sync_args(self.targets@[self.next as int]@));
                    let r = Step::Run("uv".to_owned(), args);
                    assert(read_handled(before, *self, r@, py_text@, locked@, n));
                    assert(read_answered(before, *self, r@, ev0));
                    r
                }
            },
            UvPhase::AwaitWrite => {
                match ev {
                    Event::Wrote(Err(e)) => {
                        let path = path_join(self.targets[self.next].as_str(), "pyproject.toml");
                        let head = concat("write ", path.as_str());
                        let head = concat(head.as_str(), ": ");
                        let msg = concat(head.as_str(), e.as_str());
                        let ghost mv = msg@;
                        let ghost before = strings_view(self.errors@);
                        self.errors.push(msg);
                        assert(strings_view(self.errors@) =~= before.push(mv));
                        self.pending = Vec::new();
                        self.next = self.next + 1;
                        self.go_on()
                    },
                    _ => {
                        self.phase = UvPhase::AwaitRelock;
                        let pkg = self.targets[self.next].clone();
                        let args = vec!["lock".to_owned(), "--project".to_owned(), pkg];
                        assert(strings_view(args@) =~= relock_args(self.targets@[self.next as int]@));
                        Step::Run("uv".to_owned(), args)
                    },
                }
            },
            UvPhase::AwaitRelock => {
                let pkg = self.targets[self.next].clone();
                let args = vec!["lock".to_owned(), "--project".to_owned(), pkg];
                assert(strings_view(args@) =~= relock_args(self.targets@[self.next as int]@));
                let res = match ev {
                    Event::Ran(res) => res,
                    _ => Err(String::new()),
                };
                let failure = run_uv_result(&args, res);
                UvRun::note(&mut self.warnings, failure);
                self.phase = UvPhase::AwaitSync;
                let pkg = self.targets[self.next].clone();
                let args = vec!["sync".to_owned(), "--project".to_owned(), pkg, "--all-groups".to_owned()];
                assert(strings_view(args@) =~= sync_args(self.targets@[self.next as int]@));
                Step::Run("uv".to_owned(), args)
            },
            _ => {
                let pkg = self.targets[self.next].clone();
                let args = vec!["sync".to_owned(), "--project".to_owned(), pkg, "--all-groups".to_owned()];
                assert(strings_view(args@) =~= sync_args(self.targets@[self.next as int]@));
                let res = match ev {
                    Event::Ran(res) => res,
                    _ => Err(String::new()),
                };
                let failure = run_uv_result(&args, res);
                UvRun::note(&mut self.warnings, failure);
                let mut pending = Vec::new();
                std::mem::swap(&mut pending, &mut self.pending);
                extend_changes(&mut self.changes, pending);
                self.next = self.next + 1;
                self.go_on()
            },
        }
    }
}

impl PythonUv {
    /// Starts a uv run: asks whether `uv` is on PATH, unless no package was found.
    pub fn start(&self, ctx: &RunCtx, det: &Detection) -> (r: (UvRun, Step))
        ensures
            r.0.wf(),
            r.0.dry_run == ctx.dry_run,
            uv_step_fits(r.0.phase, r.1@),
            det is Absent ==> r.1@ == StepView::Done(
                warned_view(Status::NotPresent, "no pyproject.toml + uv.lock"@),
            ) && r.0.phase == UvPhase::Finished,
            det matches Detection::Present { targets } ==> r.1@ == StepView::Which("uv"@) && r.0.phase
                == UvPhase::AwaitWhich && r.0.targets@ == targets@ && r.0.changes@.len() == 0
                && r.0.warnings@.len() == 0 && r.0.errors@.len() == 0,
    {
        let mut run = UvRun {
            phase: UvPhase::Finished,
            dry_run: ctx.dry_run,
            targets: Vec::new(),
            next: 0,
            changes: Vec::new(),
            pending: Vec::new(),
            warnings: Vec::new(),
            errors: Vec::new(),
        };
        match det {
            Detection::Absent { .. } => (
                run,
                Step::Done(UpdateOutcome::not_present("no pyproject.toml + uv.lock")),
            ),
            Detection::Present { targets } => {
                run.targets = copy_strings(targets);
                run.phase = UvPhase::AwaitWhich;
                (run, Step::Which("uv".to_owned()))
            },
        }
    }
}

// ---------------------------------------------------------------------------
// Requirement specifiers
// ---------------------------------------------------------------------------

/// Where one `name[extras]>=min<rest>` requirement sits in pyproject text.
pub struct ReqSpan {
    pub start: int,
    /// End of the name.
    pub name_end: int,
    /// End of the `[extras]` group (equal to `name_end` when absent).
    pub extras_end: int,
    /// Start and end of the minimum version.
    pub min_start: int,
    pub min_end: int,
    /// End of the remainder (up to a quote or a newline).
    pub end: int,
}

/// End of the `[extras]` group at `p`: `Some(p)` when there is none, `None`
/// when a `[` is never closed.
pub open spec fn extras_end_at(s: Seq<char>, p: int) -> Option<int> {
    if p < s.len() && s[p] == '[' {
        let close = p + 1 + class_run(s, p + 1, NOT_CLOSE_BRACKET);
        if close < s.len() {
            Some(close + 1)
        } else {
            None
        }
    } else {
        Some(p)
    }
}

/// The requirement that the pattern
/// `([A-Za-z0-9][A-Za-z0-9._-]*)(\[[^\]]*\])?\s*>=\s*([0-9][0-9A-Za-z.+!-]*)([^"'\n]*)`
/// matches at position `i`, if any.
pub open spec fn req_at(s: Seq<char>, i: int) -> Option<ReqSpan> {
    let ne = i + 1 + class_run(s, i + 1, ALNUM_DOT_DASH);
    if 0 <= i < s.len() && in_class(s[i], ALNUM) && extras_end_at(s, ne) is Some {
        let xe = extras_end_at(s, ne)->0;
        let g = xe + space_run(s, xe);
        let mn = g + 2 + space_run(s, g + 2);
        let me = mn + 1 + class_run(s, mn + 1, VERSION_CHARS);
        if occurs_at(s, seq!['>', '='], g) && mn < s.len() && in_class(s[mn], DIGIT) {
            Some(
                ReqSpan {
                    start: i,
                    name_end: ne,
                    extras_end: xe,
                    min_start: mn,
                    min_end: me,
                    end: me + class_run(s, me, NOT_QUOTE_OR_NEWLINE),
                },
            )
        } else {
            None
        }
    } else {
        None
    }
}

/// The leftmost requirement at or after `i`.
pub open spec fn next_req(s: Seq<char>, i: int) -> Option<ReqSpan>
    decreases s.len() - i,
{
    if i < 0 || i >= s.len() {
        None
    } else if req_at(s, i) is Some {
        req_at(s, i)
    } else {
        next_req(s, i + 1)
    }
}

pub proof fn lemma_req_at(s: Seq<char>, i: int)
    requires
        req_at(s, i) is Some,
    ensures
        ({
            let m = req_at(s, i)->0;
            &&& m.start == i
            &&& 0 <= i < m.name_end <= m.extras_end < m.min_start < m.min_end <= m.end <= s.len()
        }),
{
    let m = req_at(s, i)->0;
    lemma_class_run(s, i + 1, ALNUM_DOT_DASH);
    let ne = m.name_end;
    if ne < s.len() && s[ne] == '[' {
        lemma_class_run(s, ne + 1, NOT_CLOSE_BRACKET);
    }
    lemma_space_run(s, m.extras_end);
    let g = m.extras_end + space_run(s, m.extras_end);
    lemma_space_run(s, g + 2);
    lemma_class_run(s, m.min_start + 1, VERSION_CHARS);
    lemma_class_run(s, m.min_end, NOT_QUOTE_OR_NEWLINE);
}

pub proof fn lemma_next_req(s: Seq<char>, i: int)
    requires
        0 <= i,
    ensures
        next_req(s, i) matches Some(m) ==> i <= m.start && req_at(s, m.start) == Some(m),
    decreases s.len() - i,
{
    if i < s.len() && req_at(s, i) is None {
        lemma_next_req(s, i + 1);
    }
}

/// Position after the first `k` requirements.
pub open spec fn req_pos(s: Seq<char>, k: nat) -> int
    decreases k,
{
    if k == 0 {
        0
    } else {
        let p = req_pos(s, (k - 1) as nat);
        match next_req(s, p) {
            Some(m) => m.end,
            None => p,
        }
    }
}

/// The `k`-th requirement (counting from 0).
pub open spec fn req_nth(s: Seq<char>, k: nat) -> Option<ReqSpan> {
    next_req(s, req_pos(s, k))
}

/// Whether the text holds exactly `n` requirements.
pub open spec fn has_n_reqs(s: Seq<char>, n: nat) -> bool {
    &&& forall|k: nat| k < n ==> #[trigger] req_nth(s, k) is Some
    &&& req_nth(s, n) is None
}

/// Whether requirement `m` is raised: its normalized name is locked at a
/// version whose key is higher than its minimum's.
pub open spec fn raises(s: Seq<char>, m: ReqSpan, locked: Map<Seq<char>, Seq<char>>) -> bool {
    let key = normalized(s.subrange(m.start, m.name_end));
    &&& locked.contains_key(key)
    &&& key_lt(version_key_of(s.subrange(m.min_start, m.min_end)), version_key_of(locked[key]))
}

/// What replaces requirement `m`, and the change it records: the minimum is
/// raised to the locked version when that version's key is higher.
pub open spec fn req_replacement(s: Seq<char>, m: ReqSpan, locked: Map<Seq<char>, Seq<char>>) -> (
    Seq<char>,
    Seq<ChangeView>,
) {
    let name = s.subrange(m.start, m.name_end);
    let cur = s.subrange(m.min_start, m.min_end);
    let key = normalized(name);
    if !locked.contains_key(key) || !key_lt(version_key_of(cur), version_key_of(locked[key])) {
        (s.subrange(m.start, m.end), seq![])
    } else {
        let lv = locked[key];
        (
            name + s.subrange(m.name_end, m.extras_end) + seq!['>', '='] + lv + s.subrange(
                m.min_end,
                m.end,
            ),
            seq![ChangeView { name, from: cur, to: lv, kind: ChangeKind::Bump }],
        )
    }
}

/// Output and changes after the first `n` requirements.
pub open spec fn req_done(s: Seq<char>, locked: Map<Seq<char>, Seq<char>>, n: nat) -> (
    Seq<char>,
    Seq<ChangeView>,
)
    decreases n,
{
    if n == 0 {
        (seq![], seq![])
    } else {
        let prev = req_done(s, locked, (n - 1) as nat);
        let p = req_pos(s, (n - 1) as nat);
        match next_req(s, p) {
            Some(m) => {
                let rep = req_replacement(s, m, locked);
                (prev.0 + s.subrange(p, m.start) + rep.0, prev.1 + rep.1)
            },
            None => prev,
        }
    }
}

/// The rewritten pyproject text and the changes, over its `n` requirements.
pub open spec fn bump_of(s: Seq<char>, locked: Map<Seq<char>, Seq<char>>, n: nat) -> (
    Seq<char>,
    Seq<ChangeView>,
) {
    let d = req_done(s, locked, n);
    (d.0 + s.subrange(req_pos(s, n), s.len() as int), d.1)
}

pub proof fn lemma_req_pos(s: Seq<char>, k: nat)
    ensures
        0 <= req_pos(s, k) <= s.len(),
        req_nth(s, k) matches Some(m) ==> req_pos(s, k) <= m.start && m.start < m.end <= s.len(),
    decreases k,
{
    if k > 0 {
        lemma_req_pos(s, (k - 1) as nat);
        let p = req_pos(s, (k - 1) as nat);
        lemma_next_req(s, p);
        if let Some(m) = next_req(s, p) {
            lemma_req_at(s, m.start);
        }
    }
    lemma_next_req(s, req_pos(s, k));
    if let Some(m) = req_nth(s, k) {
        lemma_req_at(s, m.start);
    }
}

/// Minimums are never lowered: every recorded change is a bump of a
/// requirement to the version locked for its normalized name, and that
/// version's key is strictly higher than the minimum it replaces.
pub proof fn law_never_downgrades(s: Seq<char>, locked: Map<Seq<char>, Seq<char>>, n: nat)
    ensures
        forall|j: int|
            0 <= j < bump_of(s, locked, n).1.len() ==> {
                let c = #[trigger] bump_of(s, locked, n).1[j];
                &&& c.kind == ChangeKind::Bump
                &&& locked.contains_key(normalized(c.name))
                &&& c.to == locked[normalized(c.name)]
                &&& key_lt(version_key_of(c.from), version_key_of(c.to))
            },
    decreases n,
{
    if n > 0 {
        law_never_downgrades(s, locked, (n - 1) as nat);
        let prev = req_done(s, locked, (n - 1) as nat).1;
        let cur = req_done(s, locked, n).1;
        assert forall|j: int| 0 <= j < cur.len() implies {
            let c = #[trigger] cur[j];
            &&& c.kind == ChangeKind::Bump
            &&& locked.contains_key(normalized(c.name))
            &&& c.to == locked[normalized(c.name)]
            &&& key_lt(version_key_of(c.from), version_key_of(c.to))
        } by {
            if j < prev.len() {
                assert(cur[j] == prev[j]);
                assert(bump_of(s, locked, (n - 1) as nat).1[j] == prev[j]);
            }
        }
    }
}

/// With nothing locked, the pyproject text is left exactly as it was and no
/// change is recorded.
pub proof fn law_empty_lock_changes_nothing(s: Seq<char>, n: nat)
    requires
        has_n_reqs(s, n),
    ensures
        bump_of(s, Map::<Seq<char>, Seq<char>>::empty(), n) == (s, Seq::<ChangeView>::empty()),
{
    let empty = Map::<Seq<char>, Seq<char>>::empty();
    assert forall|k: nat| k < n implies !raises(s, #[trigger] req_nth(s, k)->0, empty) by {}
    law_nothing_raised_changes_nothing(s, empty, n);
}

/// A requirement that is not raised keeps its text: the step over the
/// `k`-th requirement copies the text from the end of the previous one
/// through its own end unchanged, and records no change.
pub proof fn law_unraised_requirement_kept(s: Seq<char>, locked: Map<Seq<char>, Seq<char>>, k: nat)
    requires
        req_nth(s, k) matches Some(m) && !raises(s, m, locked),
    ensures
        req_done(s, locked, k + 1) == (
            req_done(s, locked, k).0 + s.subrange(req_pos(s, k), req_nth(s, k)->0.end),
            req_done(s, locked, k).1,
        ),
{
    let p = req_pos(s, k);
    let m = req_nth(s, k)->0;
    lemma_req_pos(s, k);
    assert(req_replacement(s, m, locked) == (s.subrange(m.start, m.end), Seq::<ChangeView>::empty()));
    assert(req_done(s, locked, k).0 + s.subrange(p, m.start) + s.subrange(m.start, m.end)
        =~= req_done(s, locked, k).0 + s.subrange(p, m.end));
    assert(req_done(s, locked, k).1 + Seq::<ChangeView>::empty() =~= req_done(s, locked, k).1);
}

/// A requirement that is raised is rewritten to `name[extras]>=<locked>`
/// followed by the rest of its specifier, and records exactly one `Bump`
/// change from its minimum to the locked version: the text from the end of
/// the previous requirement up to its name is copied unchanged.
pub proof fn law_raised_requirement_bumped(s: Seq<char>, locked: Map<Seq<char>, Seq<char>>, k: nat)
    requires
        req_nth(s, k) matches Some(m) && raises(s, m, locked),
    ensures
        ({
            let m = req_nth(s, k)->0;
            let p = req_pos(s, k);
            let name = s.subrange(m.start, m.name_end);
            let cur = s.subrange(m.min_start, m.min_end);
            let lv = locked[normalized(name)];
            &&& req_done(s, locked, k + 1) == (
                req_done(s, locked, k).0 + s.subrange(p, m.start) + name + s.subrange(
                    m.name_end,
                    m.extras_end,
                ) + seq!['>', '='] + lv + s.subrange(m.min_end, m.end),
                req_done(s, locked, k).1.push(
                    ChangeView { name, from: cur, to: lv, kind: ChangeKind::Bump },
                ),
            )
            &&& key_lt(version_key_of(cur), version_key_of(lv))
        }),
{
    let m = req_nth(s, k)->0;
    let name = s.subrange(m.start, m.name_end);
    let cur = s.subrange(m.min_start, m.min_end);
    let lv = locked[normalized(name)];
    let prev = req_done(s, locked, k);
    let rep = req_replacement(s, m, locked);
    assert(rep.1 =~= seq![ChangeView { name, from: cur, to: lv, kind: ChangeKind::Bump }]);
    assert(prev.1 + rep.1 =~= prev.1.push(ChangeView { name, from: cur, to: lv, kind: ChangeKind::Bump }));
    assert(prev.0 + s.subrange(req_pos(s, k), m.start) + rep.0 =~= prev.0 + s.subrange(
        req_pos(s, k),
        m.start,
    ) + name + s.subrange(m.name_end, m.extras_end) + seq!['>', '='] + lv + s.subrange(
        m.min_end,
        m.end,
    ));
}

/// When no requirement is raised, the pyproject text is left exactly as it
/// was and no change is recorded.
pub proof fn law_nothing_raised_changes_nothing(
    s: Seq<char>,
    locked: Map<Seq<char>, Seq<char>>,
    n: nat,
)
    requires
        has_n_reqs(s, n),
        forall|k: nat| k < n ==> !raises(s, #[trigger] req_nth(s, k)->0, locked),
    ensures
        bump_of(s, locked, n) == (s, Seq::<ChangeView>::empty()),
{
    lemma_unraised_prefix(s, locked, n);
    lemma_req_pos(s, n);
    assert(s.subrange(0, req_pos(s, n)) + s.subrange(req_pos(s, n), s.len() as int) =~= s);
}

proof fn lemma_unraised_prefix(s: Seq<char>, locked: Map<Seq<char>, Seq<char>>, n: nat)
    requires
        forall|k: nat| k < n ==> #[trigger] req_nth(s, k) is Some,
        forall|k: nat| k < n ==> !raises(s, #[trigger] req_nth(s, k)->0, locked),
    ensures
        req_done(s, locked, n) == (s.subrange(0, req_pos(s, n)), Seq::<ChangeView>::empty()),
    decreases n,
{
    if n > 0 {
        let k = (n - 1) as nat;
        assert forall|j: nat| j < k implies #[trigger] req_nth(s, j) is Some by {
            assert(req_nth(s, j) is Some);
        }
        assert forall|j: nat| j < k implies !raises(s, #[trigger] req_nth(s, j)->0, locked) by {
            assert(!raises(s, req_nth(s, j)->0, locked));
        }
        lemma_unraised_prefix(s, locked, k);
        assert(req_nth(s, k) is Some);
        assert(!raises(s, req_nth(s, k)->0, locked));
        law_unraised_requirement_kept(s, locked, k);
        lemma_req_pos(s, k);
        let m = req_nth(s, k)->0;
        assert(s.subrange(0, req_pos(s, k)) + s.subrange(req_pos(s, k), m.end) =~= s.subrange(
            0,
            m.end,
        ));
    }
}

/// Exec image of [`ReqSpan`].
struct Found {
    start: usize,
    name_end: usize,
    extras_end: usize,
    min_start: usize,
    min_end: usize,
    end: usize,
}

impl Found {
    spec fn span(self) -> ReqSpan {
        ReqSpan {
            start: self.start as int,
            name_end: self.name_end as int,
            extras_end: self.extras_end as int,
            min_start: self.min_start as int,
            min_end: self.min_end as int,
            end: self.end as int,
        }
    }
}

fn req_at_exec(s: &[char], i: usize) -> (r: Option<Found>)
    requires
        i < s@.len(),
    ensures
        match r {
            Some(f) => req_at(s@, i as int) == Some(f.span()),
            None => req_at(s@, i as int) is None,
        },
{
    if !class_has(s[i], ALNUM) {
        return None;
    }
    let ne = i + 1 + class_run_len(s, i + 1, ALNUM_DOT_DASH);
    let xe = if ne < s.len() && s[ne] == '[' {
        let close = ne + 1 + class_run_len(s, ne + 1, NOT_CLOSE_BRACKET);
        if close < s.len() {
            close + 1
        } else {
            return None;
        }
    } else {
        ne
    };
    let g = xe + space_run_len(s, xe);
    let ge = ['>', '='];
    assert(ge@ =~= seq!['>', '=']);
    if !matches_at(s, ge.as_slice(), g) {
        return None;
    }
    let mn = g + 2 + space_run_len(s, g + 2);
    if !(mn < s.len() && class_has(s[mn], DIGIT)) {
        return None;
    }
    let me = mn + 1 + class_run_len(s, mn + 1, VERSION_CHARS);
    let end = me + class_run_len(s, me, NOT_QUOTE_OR_NEWLINE);
    Some(Found { start: i, name_end: ne, extras_end: xe, min_start: mn, min_end: me, end })
}

fn next_req_exec(s: &[char], from: usize) -> (r: Option<Found>)
    requires
        from <= s@.len(),
    ensures
        match r {
            Some(f) => next_req(s@, from as int) == Some(f.span()),
            None => next_req(s@, from as int) is None,
        },
{
    let mut i = from;
    while i < s.len()
        invariant
            from <= i <= s@.len(),
            next_req(s@, from as int) == next_req(s@, i as int),
        decreases s@.len() - i,
    {
        match req_at_exec(s, i) {
            Some(f) => {
                return Some(f);
            },
            None => {},
        }
        i = i + 1;
    }
    None
}

fn replace_req(s: &[char], f: &Found, locked: &LockMap, out: &mut Vec<char>, changes: &mut Vec<Change>)
    requires
        req_at(s@, f.start as int) == Some(f.span()),
    ensures
        final(out)@ == old(out)@ + req_replacement(s@, f.span(), locked@).0,
        change_views(final(changes)@) == change_views(old(changes)@) + req_replacement(
            s@,
            f.span(),
            locked@,
        ).1,
{
    proof {
        lemma_req_at(s@, f.start as int);
    }
    let ghost rep = req_replacement(s@, f.span(), locked@);
    let name = string_of(&s[f.start..f.name_end]);
    let cur = string_of(&s[f.min_start..f.min_end]);
    let key = normalize(name.as_str());
    match locked.get(&key) {
        None => {
            push_range(out, s, f.start, f.end);
            assert(change_views(changes@) =~= change_views(old(changes)@) + rep.1);
        },
        Some(lv) => {
            let lk = version_key(lv.as_str());
            let ck = version_key(cur.as_str());
            if !key_less(&ck, &lk) {
                push_range(out, s, f.start, f.end);
                assert(change_views(changes@) =~= change_views(old(changes)@) + rep.1);
            } else {
                push_range(out, s, f.start, f.extras_end);
                out.push('>');
                out.push('=');
                push_str(out, lv.as_str());
                push_range(out, s, f.min_end, f.end);
                proof {
                    assert(out@ =~= old(out)@ + rep.0);
                }
                let to = string_of(chars_of(lv.as_str()).as_slice());
                changes.push(Change { name, from: cur, to, kind: ChangeKind::Bump });
                assert(change_views(changes@) =~= change_views(old(changes)@) + rep.1);
            }
        },
    }
}

/// Raise every `>=` minimum in `pyproject_text` whose package is locked at a
/// higher version to that version, keeping extras and the rest of the
/// specifier. Returns the new text and the changes.
pub fn bump_minimums(pyproject_text: &str, locked: &LockMap) -> (r: (String, Vec<Change>))
    ensures
        exists|n: nat|
            {
                &&& has_n_reqs(pyproject_text@, n)
                &&& r.0@ == bump_of(pyproject_text@, locked@, n).0
                &&& change_views(r.1@) == bump_of(pyproject_text@, locked@, n).1
            },
{
    let sv = chars_of(pyproject_text);
    let s = sv.as_slice();
    let mut out: Vec<char> = Vec::new();
    let mut changes: Vec<Change> = Vec::new();
    let mut pos: usize = 0;
    let ghost mut n: nat = 0;
    loop
        invariant
            s@ == pyproject_text@,
            pos <= s@.len(),
            pos == req_pos(s@, n),
            forall|k: nat| k < n ==> #[trigger] req_nth(s@, k) is Some,
            out@ == req_done(s@, locked@, n).0,
            change_views(changes@) == req_done(s@, locked@, n).1,
        decreases s@.len() - pos,
    {
        match next_req_exec(s, pos) {
            None => {
                push_range(&mut out, s, pos, s.len());
                let new_text = string_of(out.as_slice());
                proof {
                    assert(req_nth(s@, n) is None);
                    assert(has_n_reqs(s@, n));
                }
                return (new_text, changes);
            },
            Some(f) => {
                proof {
                    lemma_next_req(s@, pos as int);
                    lemma_req_at(s@, f.start as int);
                }
                push_range(&mut out, s, pos, f.start);
                let ghost before_changes = change_views(changes@);
                let ghost rep = req_replacement(s@, f.span(), locked@);
                replace_req(s, &f, locked, &mut out, &mut changes);
                proof {
                    assert forall|j: nat| j < n + 1 implies #[trigger] req_nth(s@, j) is Some by {
                        if j < n {
                        } else {
                            assert(j == n);
                        }
                    }
                    assert(change_views(changes@) =~= before_changes + rep.1);
                    n = n + 1;
                }
                pos = f.end;
            },
        }
    }
}

} // verus!
