//! The command-line options, as plain values, and how they become a run
//! context.

use vstd::prelude::*;

use crate::context::{freezable, Ecosystem, RunCtx};

verus! {

/// `--path`, for the commands that take nothing else.
pub struct PathArg {
    pub path: Option<String>,
}

/// The options of `run` and `check`.
pub struct RunArgs {
    pub path: Option<String>,
    pub dry_run: bool,
    /// Tools opted into freezing (SHA/digest pins).
    pub freeze: Vec<FreezeKey>,
    pub only: Vec<EcoArg>,
    pub skip: Vec<EcoArg>,
    pub major: bool,
    pub log_json: Option<String>,
    pub verbose: bool,
    pub quiet: bool,
    pub no_color: bool,
}

/// A value of `--freeze`.
#[derive(Copy, Clone, PartialEq, Eq, Debug, Structural)]
pub enum FreezeKey {
    Actions,
    PreCommit,
    Docker,
    All,
}

/// A value of `--only` and `--skip`.
#[derive(Copy, Clone, PartialEq, Eq, Debug, Structural)]
pub enum EcoArg {
    Uv,
    Requirements,
    Npm,
    Cargo,
    Docker,
    Actions,
    PreCommit,
}

/// The ecosystem an `--only`/`--skip` value names.
pub open spec fn eco_of_arg(a: EcoArg) -> Ecosystem {
    match a {
        EcoArg::Uv => Ecosystem::Uv,
        EcoArg::Requirements => Ecosystem::Requirements,
        EcoArg::Npm => Ecosystem::Npm,
        EcoArg::Cargo => Ecosystem::Cargo,
        EcoArg::Docker => Ecosystem::Docker,
        EcoArg::Actions => Ecosystem::Actions,
        EcoArg::PreCommit => Ecosystem::PreCommit,
    }
}

/// Whether the `--freeze` value `k` freezes `e`.
pub open spec fn freeze_covers(k: FreezeKey, e: Ecosystem) -> bool {
    match k {
        FreezeKey::Actions => e == Ecosystem::Actions,
        FreezeKey::PreCommit => e == Ecosystem::PreCommit,
        FreezeKey::Docker => e == Ecosystem::Docker,
        FreezeKey::All => freezable(e),
    }
}

/// Whether some `--freeze` value among `keys` freezes `e`.
pub open spec fn frozen_by(keys: Seq<FreezeKey>, e: Ecosystem) -> bool {
    exists|i: int| 0 <= i < keys.len() && freeze_covers(#[trigger] keys[i], e)
}

impl EcoArg {
    /// The ecosystem this value names.
    pub fn to_ecosystem(self) -> (r: Ecosystem)
        ensures
            r == eco_of_arg(self),
    {
        match self {
            EcoArg::Uv => Ecosystem::Uv,
            EcoArg::Requirements => Ecosystem::Requirements,
            EcoArg::Npm => Ecosystem::Npm,
            EcoArg::Cargo => Ecosystem::Cargo,
            EcoArg::Docker => Ecosystem::Docker,
            EcoArg::Actions => Ecosystem::Actions,
            EcoArg::PreCommit => Ecosystem::PreCommit,
        }
    }
}

/// The ecosystems that a list of `--only`/`--skip` values names, in order.
fn ecosystems_of(args: &Vec<EcoArg>) -> (r: Vec<Ecosystem>)
    ensures
        r@ == args@.map_values(|a: EcoArg| eco_of_arg(a)),
{
    let mut out: Vec<Ecosystem> = Vec::new();
    let mut i: usize = 0;
    while i < args.len()
        invariant
            i <= args@.len(),
            out@ == args@.subrange(0, i as int).map_values(|a: EcoArg| eco_of_arg(a)),
        decreases args@.len() - i,
    {
        out.push(args[i].to_ecosystem());
        i = i + 1;
        assert(out@ =~= args@.subrange(0, i as int).map_values(|a: EcoArg| eco_of_arg(a)));
    }
    assert(args@.subrange(0, args@.len() as int) =~= args@);
    out
}

/// The repository root: `--path` when given, else `default_root`.
pub open spec fn root_of(path: Option<String>, default_root: String) -> String {
    match path {
        Some(p) => p,
        None => default_root,
    }
}

/// The repository root: `--path` when given, else `default_root`.
pub fn chosen_root(path: Option<String>, default_root: String) -> (r: String)
    ensures
        r@ == root_of(path, default_root)@,
{
    match path {
        Some(p) => p,
        None => default_root,
    }
}

impl RunArgs {
    /// The set of frozen ecosystems: each named tool, and for `all` every
    /// freezable one. Each ecosystem occurs once.
    pub fn freeze_set(&self) -> (r: Vec<Ecosystem>)
        ensures
            forall|e: Ecosystem| r@.contains(e) <==> frozen_by(self.freeze@, e),
            r@.no_duplicates(),
    {
        let mut actions = false;
        let mut pre_commit = false;
        let mut docker = false;
        let mut i: usize = 0;
        while i < self.freeze.len()
            invariant
                i <= self.freeze@.len(),
                actions == frozen_by(self.freeze@.subrange(0, i as int), Ecosystem::Actions),
                pre_commit == frozen_by(self.freeze@.subrange(0, i as int), Ecosystem::PreCommit),
                docker == frozen_by(self.freeze@.subrange(0, i as int), Ecosystem::Docker),
            decreases self.freeze@.len() - i,
        {
            let ghost before = self.freeze@.subrange(0, i as int);
            let ghost after = self.freeze@.subrange(0, i + 1);
            match self.freeze[i] {
                FreezeKey::Actions => {
                    actions = true;
                },
                FreezeKey::PreCommit => {
                    pre_commit = true;
                },
                FreezeKey::Docker => {
                    docker = true;
                },
                FreezeKey::All => {
                    actions = true;
                    pre_commit = true;
                    docker = true;
                },
            }
            proof {
                assert forall|e: Ecosystem| #[trigger]
                    frozen_by(after, e) == (frozen_by(before, e) || freeze_covers(
                        self.freeze@[i as int],
                        e,
                    )) by {
                    if frozen_by(after, e) {
                        let j = choose|j: int| 0 <= j < after.len() && freeze_covers(after[j], e);
                        if j < i {
                            assert(before[j] == after[j]);
                        }
                    }
                    if frozen_by(before, e) {
                        let j = choose|j: int| 0 <= j < before.len() && freeze_covers(before[j], e);
                        assert(before[j] == after[j]);
                    }
                    if freeze_covers(self.freeze@[i as int], e) {
                        assert(after[i as int] == self.freeze@[i as int]);
                    }
                }
                assert(frozen_by(after, Ecosystem::Actions) == (frozen_by(before, Ecosystem::Actions)
                    || freeze_covers(self.freeze@[i as int], Ecosystem::Actions)));
                assert(frozen_by(after, Ecosystem::PreCommit) == (frozen_by(
                    before,
                    Ecosystem::PreCommit,
                ) || freeze_covers(self.freeze@[i as int], Ecosystem::PreCommit)));
                assert(frozen_by(after, Ecosystem::Docker) == (frozen_by(before, Ecosystem::Docker)
                    || freeze_covers(self.freeze@[i as int], Ecosystem::Docker)));
            }
            i = i + 1;
        }
        assert(self.freeze@.subrange(0, self.freeze@.len() as int) =~= self.freeze@);
        let mut set: Vec<Ecosystem> = Vec::new();
        if actions {
            set.push(Ecosystem::Actions);
        }
        if pre_commit {
            set.push(Ecosystem::PreCommit);
        }
        if docker {
            set.push(Ecosystem::Docker);
        }
        proof {
            assert forall|e: Ecosystem| frozen_by(self.freeze@, e) implies freezable(e) by {
                let j = choose|j: int|
                    0 <= j < self.freeze@.len() && freeze_covers(self.freeze@[j], e);
            }
            assert forall|e: Ecosystem| set@.contains(e) <==> frozen_by(self.freeze@, e) by {
                if set@.contains(e) {
                    let j = choose|j: int| 0 <= j < set@.len() && set@[j] == e;
                }
                if frozen_by(self.freeze@, e) {
                    let k: int = if e == Ecosystem::Actions {
                        0
                    } else if e == Ecosystem::PreCommit {
                        if actions { 1 } else { 0 }
                    } else {
                        (if actions { 1int } else { 0int }) + (if pre_commit { 1int } else { 0int })
                    };
                    assert(set@[k] == e);
                }
            }
        }
        set
    }

    /// The run context these options ask for: the repository root is
    /// `--path` when given, else `default_root` (the git top-level or the
    /// working directory); `check` forces a dry run.
    pub fn into_ctx(self, force_dry_run: bool, default_root: String) -> (ctx: RunCtx)
        ensures
            ctx.repo_root@ == root_of(self.path, default_root)@,
            ctx.dry_run == (self.dry_run || force_dry_run),
            forall|e: Ecosystem| ctx.freeze@.contains(e) <==> frozen_by(self.freeze@, e),
            ctx.wf(),
            ctx.major == self.major,
            ctx.only@ == self.only@.map_values(|a: EcoArg| eco_of_arg(a)),
            ctx.skip@ == self.skip@.map_values(|a: EcoArg| eco_of_arg(a)),
    {
        let freeze = self.freeze_set();
        let repo_root = chosen_root(self.path, default_root);
        RunCtx {
            repo_root,
            dry_run: self.dry_run || force_dry_run,
            freeze,
            major: self.major,
            only: ecosystems_of(&self.only),
            skip: ecosystems_of(&self.skip),
        }
    }
}

/// Freezing reaches freezable ecosystems only, and `--freeze all` freezes
/// every one of them.
pub proof fn law_freeze_only_freezable(keys: Seq<FreezeKey>, e: Ecosystem)
    ensures
        frozen_by(keys, e) ==> freezable(e),
        keys.contains(FreezeKey::All) && freezable(e) ==> frozen_by(keys, e),
{
    if keys.contains(FreezeKey::All) && freezable(e) {
        let i = choose|i: int| 0 <= i < keys.len() && keys[i] == FreezeKey::All;
        assert(freeze_covers(keys[i], e));
    }
}

} // verus!
