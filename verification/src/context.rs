//! Run context, the ecosystem enum, and the injectable process runner.

use vstd::prelude::*;

verus! {

/// Every ecosystem the updater knows, in run order.
#[derive(Copy, Clone, Eq, PartialEq, Hash, Debug, Structural)]
pub enum Ecosystem {
    Uv,
    Requirements,
    Npm,
    Cargo,
    Docker,
    Actions,
    PreCommit,
}

/// The ecosystems in run order.
pub open spec fn run_order() -> Seq<Ecosystem> {
    seq![
        Ecosystem::Uv,
        Ecosystem::Requirements,
        Ecosystem::Npm,
        Ecosystem::Cargo,
        Ecosystem::Docker,
        Ecosystem::Actions,
        Ecosystem::PreCommit,
    ]
}

/// The key that names `e` on the command line and in logs.
pub open spec fn key_of(e: Ecosystem) -> Seq<char> {
    match e {
        Ecosystem::Uv => "uv"@,
        Ecosystem::Requirements => "requirements"@,
        Ecosystem::Npm => "npm"@,
        Ecosystem::Cargo => "cargo"@,
        Ecosystem::Docker => "docker"@,
        Ecosystem::Actions => "actions"@,
        Ecosystem::PreCommit => "pre-commit"@,
    }
}

/// The emoji shown beside `e` in the report.
pub open spec fn emoji_of(e: Ecosystem) -> Seq<char> {
    match e {
        Ecosystem::Uv | Ecosystem::Requirements => "🐍"@,
        Ecosystem::Npm => "📦"@,
        Ecosystem::Cargo => "🦀"@,
        Ecosystem::Docker => "🐳"@,
        Ecosystem::Actions => "🎬"@,
        Ecosystem::PreCommit => "🪝"@,
    }
}

/// Whether `e` can be pinned to an immutable ref (SHA or digest).
pub open spec fn freezable(e: Ecosystem) -> bool {
    e == Ecosystem::Actions || e == Ecosystem::PreCommit || e == Ecosystem::Docker
}

/// `a == b` on strings.
pub fn str_eq(a: &str, b: &str) -> (r: bool)
    ensures
        r == (a@ == b@),
{
    a.to_owned() == b.to_owned()
}

impl Ecosystem {
    /// Every ecosystem, in run order.
    pub const ALL: [Ecosystem; 7] = [
        Ecosystem::Uv,
        Ecosystem::Requirements,
        Ecosystem::Npm,
        Ecosystem::Cargo,
        Ecosystem::Docker,
        Ecosystem::Actions,
        Ecosystem::PreCommit,
    ];

    /// The key that names this ecosystem.
    pub fn key(self) -> (r: &'static str)
        ensures
            r@ == key_of(self),
    {
        match self {
            Ecosystem::Uv => "uv",
            Ecosystem::Requirements => "requirements",
            Ecosystem::Npm => "npm",
            Ecosystem::Cargo => "cargo",
            Ecosystem::Docker => "docker",
            Ecosystem::Actions => "actions",
            Ecosystem::PreCommit => "pre-commit",
        }
    }

    /// The emoji shown beside this ecosystem.
    pub fn emoji(self) -> (r: &'static str)
        ensures
            r@ == emoji_of(self),
    {
        match self {
            Ecosystem::Uv | Ecosystem::Requirements => "🐍",
            Ecosystem::Npm => "📦",
            Ecosystem::Cargo => "🦀",
            Ecosystem::Docker => "🐳",
            Ecosystem::Actions => "🎬",
            Ecosystem::PreCommit => "🪝",
        }
    }

    /// Whether this ecosystem can be frozen.
    pub fn is_freezable(self) -> (r: bool)
        ensures
            r == freezable(self),
    {
        matches!(self, Ecosystem::Actions | Ecosystem::PreCommit | Ecosystem::Docker)
    }

    /// The ecosystem whose key is `s`.
    pub fn from_key(s: &str) -> (r: Option<Ecosystem>)
        ensures
            match r {
                Some(e) => key_of(e) == s@,
                None => forall|e: Ecosystem| key_of(e) != s@,
            },
    {
        let all = Ecosystem::ALL;
        let mut i: usize = 0;
        while i < 7
            invariant
                0 <= i <= 7,
                all@ == run_order(),
                forall|j: int| 0 <= j < i ==> key_of(#[trigger] run_order()[j]) != s@,
            decreases 7 - i,
        {
            let e = all[i];
            if str_eq(e.key(), s) {
                return Some(e);
            }
            i = i + 1;
        }
        proof {
            assert forall|e: Ecosystem| key_of(e) != s@ by {
                assert(run_order().contains(e)) by {
                    match e {
                        Ecosystem::Uv => assert(run_order()[0] == e),
                        Ecosystem::Requirements => assert(run_order()[1] == e),
                        Ecosystem::Npm => assert(run_order()[2] == e),
                        Ecosystem::Cargo => assert(run_order()[3] == e),
                        Ecosystem::Docker => assert(run_order()[4] == e),
                        Ecosystem::Actions => assert(run_order()[5] == e),
                        Ecosystem::PreCommit => assert(run_order()[6] == e),
                    }
                }
            }
        }
        None
    }
}

/// Distinct ecosystems have distinct keys, so a key names one ecosystem.
pub proof fn law_keys_are_distinct(a: Ecosystem, b: Ecosystem)
    ensures
        key_of(a) == key_of(b) ==> a == b,
{
    reveal_strlit("uv");
    reveal_strlit("requirements");
    reveal_strlit("npm");
    reveal_strlit("cargo");
    reveal_strlit("docker");
    reveal_strlit("actions");
    reveal_strlit("pre-commit");
    if key_of(a) == key_of(b) && a != b {
        assert(key_of(a).len() == key_of(b).len());
        assert(key_of(a)[0] == key_of(b)[0]);
        assert(key_of(a)[1] == key_of(b)[1]);
    }
}

/// `from_key` undoes `key`: looking up an ecosystem's own key finds it.
pub proof fn law_key_round_trip(e: Ecosystem, found: Option<Ecosystem>)
    requires
        match found {
            Some(f) => key_of(f) == key_of(e),
            None => forall|x: Ecosystem| key_of(x) != key_of(e),
        },
    ensures
        found == Some(e),
{
    match found {
        Some(f) => law_keys_are_distinct(f, e),
        None => assert(key_of(e) == key_of(e)),
    }
}

/// Captured result of a delegated command.
pub struct CmdOutput {
    pub status: i32,
    pub stdout: String,
    pub stderr: String,
}

impl CmdOutput {
    /// Whether the command exited with status 0.
    pub fn ok(&self) -> (r: bool)
        ensures
            r == (self.status == 0),
    {
        self.status == 0
    }
}

/// Process execution, injected so that updaters can be driven without
/// running real tools.
///
/// What a runner answers depends on the machine (PATH, the disk, the
/// network), so nothing is promised of its answers: the updaters state their
/// outcome for every answer the runner may give.
pub trait Runner {
    /// Whether `program` is on PATH.
    fn which(&self, program: &str) -> (r: bool);

    /// Runs `program args…` in `cwd`; `Err` when it could not be started.
    fn run(&self, program: &str, args: &[&str], cwd: &str) -> (r: Result<CmdOutput, String>);
}

/// Runs `program args…` in `cwd` with `runner`, handing it the arguments
/// as string slices.
pub fn run_command<R: Runner>(runner: &R, program: &String, args: &Vec<String>, cwd: &str) -> (r:
    Result<CmdOutput, String>) {
    let mut argv: Vec<&str> = Vec::new();
    let mut i: usize = 0;
    while i < args.len()
        invariant
            i <= args@.len(),
        decreases args@.len() - i,
    {
        argv.push(args[i].as_str());
        i = i + 1;
    }
    runner.run(program.as_str(), argv.as_slice(), cwd)
}

/// Whether `e` occurs in `v`.
pub fn eco_in(v: &Vec<Ecosystem>, e: Ecosystem) -> (r: bool)
    ensures
        r == v@.contains(e),
{
    let mut i: usize = 0;
    while i < v.len()
        invariant
            i <= v@.len(),
            forall|j: int| 0 <= j < i ==> v@[j] != e,
        decreases v@.len() - i,
    {
        if v[i] == e {
            return true;
        }
        i = i + 1;
    }
    false
}

/// Everything an updater needs to decide what to do and how to report it.
pub struct RunCtx {
    pub repo_root: String,
    pub dry_run: bool,
    /// The ecosystems opted into freezing.
    pub freeze: Vec<Ecosystem>,
    pub major: bool,
    pub only: Vec<Ecosystem>,
    pub skip: Vec<Ecosystem>,
}

/// `--only` (if non-empty) is an allowlist; `--skip` always removes.
pub open spec fn is_selected(only: Seq<Ecosystem>, skip: Seq<Ecosystem>, e: Ecosystem) -> bool {
    !skip.contains(e) && (only.len() == 0 || only.contains(e))
}

impl RunCtx {
    /// The frozen ecosystems form a set: each occurs once.
    pub open spec fn wf(&self) -> bool {
        self.freeze@.no_duplicates()
    }

    /// Whether `e` is frozen in this run.
    pub fn is_frozen(&self, e: Ecosystem) -> (r: bool)
        ensures
            r == self.freeze@.contains(e),
    {
        eco_in(&self.freeze, e)
    }

    /// `--only` (if non-empty) is an allowlist; `--skip` always removes.
    pub fn selected(&self, e: Ecosystem) -> (r: bool)
        ensures
            r == is_selected(self.only@, self.skip@, e),
            r <==> !self.skip@.contains(e) && (self.only@.len() == 0 || self.only@.contains(e)),
    {
        if eco_in(&self.skip, e) {
            return false;
        }
        self.only.len() == 0 || eco_in(&self.only, e)
    }

    /// A dry-run context over `.` with the given selection.
    pub fn for_test(only: Vec<Ecosystem>, skip: Vec<Ecosystem>) -> (ctx: RunCtx)
        ensures
            ctx.wf(),
            ctx.repo_root@ == "."@,
            ctx.dry_run,
            ctx.freeze@.len() == 0,
            !ctx.major,
            ctx.only@ == only@,
            ctx.skip@ == skip@,
    {
        RunCtx {
            repo_root: ".".to_owned(),
            dry_run: true,
            freeze: Vec::new(),
            major: false,
            only,
            skip,
        }
    }
}

/// Skipping wins over `--only`: a skipped ecosystem is never selected, an
/// empty `--only` selects every ecosystem that is not skipped, a non-empty
/// `--only` selects nothing outside it, and every ecosystem named in
/// `--only` and not skipped is selected.
pub proof fn law_selection(only: Seq<Ecosystem>, skip: Seq<Ecosystem>, e: Ecosystem)
    ensures
        skip.contains(e) ==> !is_selected(only, skip, e),
        only.len() == 0 && !skip.contains(e) ==> is_selected(only, skip, e),
        only.len() > 0 && !only.contains(e) ==> !is_selected(only, skip, e),
        only.contains(e) && !skip.contains(e) ==> is_selected(only, skip, e),
        is_selected(only, skip, e) <==> (!skip.contains(e) && (only.len() == 0 || only.contains(e))),
{
}

} // verus!
