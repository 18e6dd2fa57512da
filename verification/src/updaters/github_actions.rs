//! GitHub Actions `uses:` pins. The rewrite preserves pin granularity and,
//! when frozen, writes `@<sha>  # frozen: <tag>`.

use vstd::prelude::*;

use crate::context::{CmdOutput, Ecosystem, RunCtx};
use crate::registry::{last_dot, lemma_last_dot};
use crate::report::{change_views, Change, ChangeKind, ChangeView, Status};
use crate::scan::{
    class_has, class_run, class_run_len, in_class, lemma_class_run, lemma_nonspace_run,
    lemma_space_run, nonspace_run, nonspace_run_len, push_range, push_str, space_run,
    space_run_len, ALNUM, ALNUM_DASH, ALNUM_DOT_DASH, ALNUM_DOT_SLASH_DASH, LOWER_HEX,
};
use crate::text::{
    views_of,
    chars_of, concat, is_word_char, matches_at, occurs_at, string_of, trim, trimmed,
    unicode_word_char,
};
use crate::updaters::{
    applied_view, copy_strings, detect_files, detected_files, errored_view, extend_changes,
    touches_repo, warned_view, Detection, Event, OutcomeView, Step, StepView,
    UpdateOutcome, Updater,
};
use crate::version::{
    desired_tag, desired_tag_of, has_lead_major, key_less, key_lt, lead_major, version_key,
    version_key_of,
};

verus! {

/// Where one `uses: owner/repo@ref` pin sits in a workflow text.
pub struct UsesSpan {
    /// The `u` of `uses:`.
    pub start: int,
    /// First character of the owner.
    pub owner: int,
    /// The `/` between owner and repo.
    pub slash: int,
    /// The `@` before the ref.
    pub at: int,
    /// End of the ref.
    pub ref_end: int,
    /// Start and end of the version written in a trailing `# …` comment.
    pub cver: Option<(int, int)>,
}

impl UsesSpan {
    /// End of the whole pin (after the comment, when there is one).
    pub open spec fn end(self) -> int {
        match self.cver {
            Some(c) => c.1,
            None => self.ref_end,
        }
    }
}

pub open spec fn uses_keyword() -> Seq<char> {
    seq!['u', 's', 'e', 's', ':']
}

pub open spec fn frozen_keyword() -> Seq<char> {
    seq!['f', 'r', 'o', 'z', 'e', 'n', ':']
}

/// `\b` before position `i`, given that `s[i]` is a word character.
pub open spec fn boundary_before(s: Seq<char>, i: int) -> bool {
    i == 0 || !unicode_word_char(s[i - 1])
}

/// The trailing comment group `\s*#\s*(?:frozen:\s*)?(\S+)` after a ref that
/// ends at `re`: the span of its captured version.
pub open spec fn pin_comment(s: Seq<char>, re: int) -> Option<(int, int)> {
    let h = re + space_run(s, re);
    if h < s.len() && s[h] == '#' {
        let q = h + 1 + space_run(s, h + 1);
        let r = q + 7 + space_run(s, q + 7);
        if occurs_at(s, frozen_keyword(), q) && r < s.len() {
            Some((r, r + nonspace_run(s, r)))
        } else if q < s.len() {
            Some((q, q + nonspace_run(s, q)))
        } else {
            None
        }
    } else {
        None
    }
}

/// The pin that the pattern
/// `\buses:\s*([A-Za-z0-9][A-Za-z0-9-]*)/([A-Za-z0-9._-]+)@([A-Za-z0-9._/-]+)(\s*#\s*(?:frozen:\s*)?(\S+))?`
/// matches at position `i`, if any.
pub open spec fn uses_at(s: Seq<char>, i: int) -> Option<UsesSpan> {
    let o = i + 5 + space_run(s, i + 5);
    let sl = o + 1 + class_run(s, o + 1, ALNUM_DASH);
    let at = sl + 1 + class_run(s, sl + 1, ALNUM_DOT_DASH);
    let re = at + 1 + class_run(s, at + 1, ALNUM_DOT_SLASH_DASH);
    if 0 <= i && occurs_at(s, uses_keyword(), i) && boundary_before(s, i) && o < s.len()
        && in_class(s[o], ALNUM) && sl < s.len() && s[sl] == '/' && class_run(
        s,
        sl + 1,
        ALNUM_DOT_DASH,
    ) > 0 && at < s.len() && s[at] == '@' && class_run(s, at + 1, ALNUM_DOT_SLASH_DASH) > 0 {
        Some(UsesSpan { start: i, owner: o, slash: sl, at, ref_end: re, cver: pin_comment(s, re) })
    } else {
        None
    }
}

/// The leftmost pin at or after `i`.
pub open spec fn next_uses(s: Seq<char>, i: int) -> Option<UsesSpan>
    decreases s.len() - i,
{
    if i < 0 || i >= s.len() {
        None
    } else if uses_at(s, i) is Some {
        uses_at(s, i)
    } else {
        next_uses(s, i + 1)
    }
}

pub proof fn lemma_uses_at(s: Seq<char>, i: int)
    requires
        uses_at(s, i) is Some,
    ensures
        ({
            let m = uses_at(s, i)->0;
            &&& m.start == i
            &&& 0 <= i < i + 5 <= m.owner < m.slash < m.at < m.ref_end <= m.end() <= s.len()
            &&& m.cver matches Some(c) ==> m.ref_end < c.0 < c.1 && c.1 == m.end()
        }),
{
    let m = uses_at(s, i)->0;
    lemma_space_run(s, i + 5);
    lemma_class_run(s, m.owner + 1, ALNUM_DASH);
    lemma_class_run(s, m.slash + 1, ALNUM_DOT_DASH);
    lemma_class_run(s, m.at + 1, ALNUM_DOT_SLASH_DASH);
    let re = m.ref_end;
    lemma_space_run(s, re);
    let h = re + space_run(s, re);
    if h < s.len() && s[h] == '#' {
        lemma_space_run(s, h + 1);
        let q = h + 1 + space_run(s, h + 1);
        if q + 7 <= s.len() {
            lemma_space_run(s, q + 7);
        }
        let r = q + 7 + space_run(s, q + 7);
        if occurs_at(s, frozen_keyword(), q) && r < s.len() {
            lemma_nonspace_run(s, r);
            assert(!crate::text::unicode_white_space(s[r]));
        } else if q < s.len() {
            lemma_nonspace_run(s, q);
            assert(!crate::text::unicode_white_space(s[q]));
        }
    }
}

pub proof fn lemma_next_uses(s: Seq<char>, i: int)
    requires
        0 <= i,
    ensures
        next_uses(s, i) matches Some(m) ==> i <= m.start && uses_at(s, m.start) == Some(m),
        next_uses(s, i) is None ==> forall|j: int| i <= j ==> uses_at(s, j) is None,
        next_uses(s, i) matches Some(m) ==> forall|j: int|
            i <= j < m.start ==> uses_at(s, j) is None,
    decreases s.len() - i,
{
    if i < s.len() && uses_at(s, i) is None {
        lemma_next_uses(s, i + 1);
    }
    if i < s.len() && uses_at(s, i) is Some {
        lemma_uses_at(s, i);
    }
    if i >= s.len() {
        assert forall|j: int| i <= j implies uses_at(s, j) is None by {
            assert(!occurs_at(s, uses_keyword(), j));
        }
    }
}

/// Position after the first `k` pins (or where the scan stopped).
pub open spec fn uses_pos(s: Seq<char>, k: nat) -> int
    decreases k,
{
    if k == 0 {
        0
    } else {
        let p = uses_pos(s, (k - 1) as nat);
        match next_uses(s, p) {
            Some(m) => m.end(),
            None => p,
        }
    }
}

/// The `k`-th pin (counting from 0).
pub open spec fn uses_nth(s: Seq<char>, k: nat) -> Option<UsesSpan> {
    next_uses(s, uses_pos(s, k))
}

/// Whether the text holds exactly `n` pins.
pub open spec fn has_n_pins(s: Seq<char>, n: nat) -> bool {
    &&& forall|k: nat| k < n ==> #[trigger] uses_nth(s, k) is Some
    &&& uses_nth(s, n) is None
}

/// `owner/repo` of a pin.
pub open spec fn action_of(s: Seq<char>, m: UsesSpan) -> Seq<char> {
    s.subrange(m.owner, m.slash) + seq!['/'] + s.subrange(m.slash + 1, m.at)
}

/// The ref of a pin.
pub open spec fn ref_of(s: Seq<char>, m: UsesSpan) -> Seq<char> {
    s.subrange(m.at + 1, m.ref_end)
}

/// Whether `r` matches `^[0-9a-f]{40}$`: a full commit SHA.
pub open spec fn is_sha40(r: Seq<char>) -> bool {
    r.len() == 40 && forall|j: int| 0 <= j < 40 ==> in_class(#[trigger] r[j], LOWER_HEX)
}

/// Replacement of pin `m` in frozen mode, upstream's latest tag being
/// `latest` at commit `sha`.
pub open spec fn frozen_replacement(s: Seq<char>, m: UsesSpan, latest: Seq<char>, sha: Seq<char>) -> (
    Seq<char>,
    Seq<ChangeView>,
) {
    let cur_ref = ref_of(s, m);
    let old_ver = match m.cver {
        Some(c) => s.subrange(c.0, c.1),
        None => cur_ref,
    };
    let new_ver = desired_tag_of(old_ver, latest);
    if is_sha40(cur_ref) && cur_ref == sha {
        (s.subrange(m.start, m.end()), seq![])
    } else {
        (
            s.subrange(m.start, m.owner) + action_of(s, m) + seq!['@'] + sha + seq![' ', ' ', '#', ' ']
                + frozen_keyword() + seq![' '] + new_ver,
            seq![ChangeView { name: action_of(s, m), from: old_ver, to: new_ver, kind: ChangeKind::Pin }],
        )
    }
}

/// Replacement of pin `m` in plain-tag mode, upstream's latest tag being
/// `latest`. A SHA pin is never turned back into a tag.
pub open spec fn floating_replacement(s: Seq<char>, m: UsesSpan, latest: Seq<char>) -> (
    Seq<char>,
    Seq<ChangeView>,
) {
    let cur_ref = ref_of(s, m);
    let new_ref = desired_tag_of(cur_ref, latest);
    if is_sha40(cur_ref) || new_ref == cur_ref {
        (s.subrange(m.start, m.end()), seq![])
    } else {
        (
            s.subrange(m.start, m.owner) + action_of(s, m) + seq!['@'] + new_ref + s.subrange(
                m.ref_end,
                m.end(),
            ),
            seq![ChangeView { name: action_of(s, m), from: cur_ref, to: new_ref, kind: ChangeKind::Pin }],
        )
    }
}

/// What the rewrite puts in place of pin `m`, and the change it records, when
/// the resolver answered `ans` (the latest tag and its commit SHA).
pub open spec fn uses_replacement(
    s: Seq<char>,
    m: UsesSpan,
    frozen: bool,
    ans: Option<(Seq<char>, Seq<char>)>,
) -> (Seq<char>, Seq<ChangeView>) {
    match ans {
        None => (s.subrange(m.start, m.end()), seq![]),
        Some((latest, sha)) => if frozen {
            frozen_replacement(s, m, latest, sha)
        } else {
            floating_replacement(s, m, latest)
        },
    }
}

/// Output and changes after the first `ans.len()` pins, the `k`-th resolved
/// to `ans[k]`.
pub open spec fn uses_done(s: Seq<char>, frozen: bool, ans: Seq<Option<(Seq<char>, Seq<char>)>>) -> (
    Seq<char>,
    Seq<ChangeView>,
)
    decreases ans.len(),
{
    if ans.len() == 0 {
        (seq![], seq![])
    } else {
        let k = (ans.len() - 1) as nat;
        let prev = uses_done(s, frozen, ans.drop_last());
        let p = uses_pos(s, k);
        match next_uses(s, p) {
            Some(m) => {
                let rep = uses_replacement(s, m, frozen, ans.last());
                (prev.0 + s.subrange(p, m.start) + rep.0, prev.1 + rep.1)
            },
            None => prev,
        }
    }
}

/// The rewritten text and the changes, the `k`-th pin resolved to `ans[k]`.
pub open spec fn uses_rewrite_of(s: Seq<char>, frozen: bool, ans: Seq<Option<(Seq<char>, Seq<char>)>>) -> (
    Seq<char>,
    Seq<ChangeView>,
) {
    let d = uses_done(s, frozen, ans);
    (d.0 + s.subrange(uses_pos(s, ans.len()), s.len() as int), d.1)
}

/// The view of a resolver answer.
pub open spec fn answer_view(a: Option<(String, String)>) -> Option<(Seq<char>, Seq<char>)> {
    match a {
        Some((t, h)) => Some((t@, h@)),
        None => None,
    }
}

/// `resolve` may answer `a` when asked about `owner`/`repo`.
pub open spec fn resolved_by<F: Fn(&str, &str) -> Option<(String, String)>>(
    resolve: F,
    owner: Seq<char>,
    repo: Seq<char>,
    a: Option<(Seq<char>, Seq<char>)>,
) -> bool {
    exists|x: &str, y: &str, out: Option<(String, String)>|
        #[trigger] call_ensures(resolve, (x, y), out) && x@ == owner && y@ == repo && answer_view(
            out,
        ) == a
}

pub proof fn lemma_uses_pos(s: Seq<char>, k: nat)
    ensures
        0 <= uses_pos(s, k) <= s.len(),
        uses_nth(s, k) matches Some(m) ==> uses_pos(s, k) <= m.start && m.start < m.end() <= s.len(),
    decreases k,
{
    if k > 0 {
        lemma_uses_pos(s, (k - 1) as nat);
        let p = uses_pos(s, (k - 1) as nat);
        lemma_next_uses(s, p);
        if let Some(m) = next_uses(s, p) {
            lemma_uses_at(s, m.start);
        }
    }
    lemma_next_uses(s, uses_pos(s, k));
    if let Some(m) = uses_nth(s, k) {
        lemma_uses_at(s, m.start);
    }
}

proof fn lemma_kept_prefix(s: Seq<char>, frozen: bool, ans: Seq<Option<(Seq<char>, Seq<char>)>>)
    requires
        forall|k: nat| k < ans.len() ==> #[trigger] uses_nth(s, k) is Some,
        forall|k: nat|
            k < ans.len() ==> uses_replacement(s, uses_nth(s, k)->0, frozen, #[trigger] ans[k as int])
                == (s.subrange(uses_nth(s, k)->0.start, uses_nth(s, k)->0.end()), Seq::<ChangeView>::empty()),
    ensures
        uses_done(s, frozen, ans) == (s.subrange(0, uses_pos(s, ans.len())), Seq::<ChangeView>::empty()),
    decreases ans.len(),
{
    if ans.len() > 0 {
        let k = (ans.len() - 1) as nat;
        let prev = ans.drop_last();
        assert forall|j: nat| j < prev.len() implies #[trigger] uses_nth(s, j) is Some by {
            assert(uses_nth(s, j) is Some);
        }
        assert forall|j: nat|
            j < prev.len() implies uses_replacement(s, uses_nth(s, j)->0, frozen, #[trigger] prev[j as int])
            == (s.subrange(uses_nth(s, j)->0.start, uses_nth(s, j)->0.end()), Seq::<ChangeView>::empty()) by {
            assert(prev[j as int] == ans[j as int]);
        }
        lemma_kept_prefix(s, frozen, prev);
        lemma_uses_pos(s, k);
        assert(uses_nth(s, k) is Some);
        assert(ans.last() == ans[k as int]);
        let p = uses_pos(s, k);
        let m = uses_nth(s, k)->0;
        assert(s.subrange(0, p) + s.subrange(p, m.start) + s.subrange(m.start, m.end()) =~= s.subrange(
            0,
            m.end(),
        ));
    }
}

/// Pins that every answer leaves alone leave the text alone: when each pin's
/// replacement is the pin itself, the rewrite returns the text unchanged and
/// records no change.
pub proof fn law_kept_pins_keep_text(s: Seq<char>, frozen: bool, ans: Seq<Option<(Seq<char>, Seq<char>)>>)
    requires
        has_n_pins(s, ans.len()),
        forall|k: nat|
            k < ans.len() ==> uses_replacement(s, uses_nth(s, k)->0, frozen, #[trigger] ans[k as int])
                == (s.subrange(uses_nth(s, k)->0.start, uses_nth(s, k)->0.end()), Seq::<ChangeView>::empty()),
    ensures
        uses_rewrite_of(s, frozen, ans) == (s, Seq::<ChangeView>::empty()),
{
    lemma_kept_prefix(s, frozen, ans);
    lemma_uses_pos(s, ans.len());
    assert(s.subrange(0, uses_pos(s, ans.len())) + s.subrange(uses_pos(s, ans.len()), s.len() as int)
        =~= s);
}

/// Pins the resolver knows nothing about are left untouched: if every answer
/// is `None`, the text comes back unchanged with no change recorded.
pub proof fn law_unresolved_pins_untouched(
    s: Seq<char>,
    frozen: bool,
    ans: Seq<Option<(Seq<char>, Seq<char>)>>,
)
    requires
        has_n_pins(s, ans.len()),
        forall|k: int| 0 <= k < ans.len() ==> #[trigger] ans[k] is None,
    ensures
        uses_rewrite_of(s, frozen, ans) == (s, Seq::<ChangeView>::empty()),
{
    assert forall|k: nat|
        k < ans.len() implies uses_replacement(s, uses_nth(s, k)->0, frozen, #[trigger] ans[k as int])
        == (s.subrange(uses_nth(s, k)->0.start, uses_nth(s, k)->0.end()), Seq::<ChangeView>::empty()) by {
        assert(ans[k as int] is None);
    }
    law_kept_pins_keep_text(s, frozen, ans);
}

/// Plain-tag mode never un-freezes a SHA pin into a floating tag: when every
/// pin is a full commit SHA, the non-frozen rewrite leaves the text unchanged,
/// whatever the resolver answers.
pub proof fn law_plain_mode_keeps_sha_pins(s: Seq<char>, ans: Seq<Option<(Seq<char>, Seq<char>)>>)
    requires
        has_n_pins(s, ans.len()),
        forall|k: nat| k < ans.len() ==> is_sha40(ref_of(s, #[trigger] uses_nth(s, k)->0)),
    ensures
        uses_rewrite_of(s, false, ans) == (s, Seq::<ChangeView>::empty()),
{
    assert forall|k: nat|
        k < ans.len() implies uses_replacement(s, uses_nth(s, k)->0, false, #[trigger] ans[k as int])
        == (s.subrange(uses_nth(s, k)->0.start, uses_nth(s, k)->0.end()), Seq::<ChangeView>::empty()) by {
        assert(is_sha40(ref_of(s, uses_nth(s, k)->0)));
    }
    law_kept_pins_keep_text(s, false, ans);
}

/// In frozen mode every resolved pin whose ref is not already the resolved
/// commit is frozen: it comes out as `owner/repo@<sha>  # frozen: <tag>`, the
/// tag being the latest tag at the granularity of the pin's version (its
/// comment's, when it has one), and exactly one change is recorded, whether
/// or not the tag moved. The text before the pin is copied unchanged.
pub proof fn law_frozen_pins_are_frozen(
    s: Seq<char>,
    ans: Seq<Option<(Seq<char>, Seq<char>)>>,
    latest: Seq<char>,
    sha: Seq<char>,
)
    requires
        ans.len() > 0,
        ans.last() == Some((latest, sha)),
        uses_nth(s, (ans.len() - 1) as nat) matches Some(m) && !(is_sha40(ref_of(s, m)) && ref_of(s, m)
            == sha),
    ensures
        ({
            let k = (ans.len() - 1) as nat;
            let m = uses_nth(s, k)->0;
            let prev = uses_done(s, true, ans.drop_last());
            let old_ver = match m.cver {
                Some(c) => s.subrange(c.0, c.1),
                None => ref_of(s, m),
            };
            let new_ver = desired_tag_of(old_ver, latest);
            uses_done(s, true, ans) == (
                prev.0 + s.subrange(uses_pos(s, k), m.owner) + action_of(s, m) + seq!['@'] + sha
                    + seq![' ', ' ', '#', ' '] + frozen_keyword() + seq![' '] + new_ver,
                prev.1.push(
                    ChangeView { name: action_of(s, m), from: old_ver, to: new_ver, kind: ChangeKind::Pin },
                ),
            )
        }),
{
    let k = (ans.len() - 1) as nat;
    let m = uses_nth(s, k)->0;
    let p = uses_pos(s, k);
    lemma_uses_pos(s, k);
    lemma_next_uses(s, p);
    lemma_uses_at(s, m.start);
    assert(s.subrange(p, m.start) + s.subrange(m.start, m.owner) =~= s.subrange(p, m.owner));
    let prev = uses_done(s, true, ans.drop_last());
    let rep = uses_replacement(s, m, true, ans.last());
    let old_ver = match m.cver {
        Some(c) => s.subrange(c.0, c.1),
        None => ref_of(s, m),
    };
    let new_ver = desired_tag_of(old_ver, latest);
    let c = ChangeView { name: action_of(s, m), from: old_ver, to: new_ver, kind: ChangeKind::Pin };
    assert(prev.1 + rep.1 =~= prev.1.push(c));
    assert(prev.0 + s.subrange(p, m.start) + rep.0 =~= prev.0 + s.subrange(p, m.owner) + action_of(s, m)
        + seq!['@'] + sha + seq![' ', ' ', '#', ' '] + frozen_keyword() + seq![' '] + new_ver);
}

/// In plain-tag mode a resolved tag pin whose latest tag (at its
/// granularity) differs from its ref moves to that tag, keeping its trailing
/// comment, and records exactly one change.
pub proof fn law_floating_pins_move(
    s: Seq<char>,
    ans: Seq<Option<(Seq<char>, Seq<char>)>>,
    latest: Seq<char>,
    sha: Seq<char>,
)
    requires
        ans.len() > 0,
        ans.last() == Some((latest, sha)),
        uses_nth(s, (ans.len() - 1) as nat) matches Some(m) && !is_sha40(ref_of(s, m))
            && desired_tag_of(ref_of(s, m), latest) != ref_of(s, m),
    ensures
        ({
            let k = (ans.len() - 1) as nat;
            let m = uses_nth(s, k)->0;
            let prev = uses_done(s, false, ans.drop_last());
            let new_ref = desired_tag_of(ref_of(s, m), latest);
            uses_done(s, false, ans) == (
                prev.0 + s.subrange(uses_pos(s, k), m.owner) + action_of(s, m) + seq!['@'] + new_ref
                    + s.subrange(m.ref_end, m.end()),
                prev.1.push(
                    ChangeView {
                        name: action_of(s, m),
                        from: ref_of(s, m),
                        to: new_ref,
                        kind: ChangeKind::Pin,
                    },
                ),
            )
        }),
{
    let k = (ans.len() - 1) as nat;
    let m = uses_nth(s, k)->0;
    let p = uses_pos(s, k);
    lemma_uses_pos(s, k);
    lemma_next_uses(s, p);
    lemma_uses_at(s, m.start);
    assert(s.subrange(p, m.start) + s.subrange(m.start, m.owner) =~= s.subrange(p, m.owner));
    let prev = uses_done(s, false, ans.drop_last());
    let rep = uses_replacement(s, m, false, ans.last());
    let new_ref = desired_tag_of(ref_of(s, m), latest);
    let c = ChangeView { name: action_of(s, m), from: ref_of(s, m), to: new_ref, kind: ChangeKind::Pin };
    assert(prev.1 + rep.1 =~= prev.1.push(c));
    assert(prev.0 + s.subrange(p, m.start) + rep.0 =~= prev.0 + s.subrange(p, m.owner) + action_of(s, m)
        + seq!['@'] + new_ref + s.subrange(m.ref_end, m.end()));
}

/// At most one change is recorded per pin.
pub proof fn law_at_most_one_change_per_pin(
    s: Seq<char>,
    frozen: bool,
    ans: Seq<Option<(Seq<char>, Seq<char>)>>,
)
    ensures
        uses_rewrite_of(s, frozen, ans).1.len() <= ans.len(),
    decreases ans.len(),
{
    if ans.len() > 0 {
        law_at_most_one_change_per_pin(s, frozen, ans.drop_last());
    }
}


// ---------------------------------------------------------------------------
// The run
// ---------------------------------------------------------------------------

/// A workflow file by name: its extension (what follows the last `.`, when
/// that dot does not open the name) is `yml` or `yaml`.
pub open spec fn workflow_name(name: Seq<char>) -> bool {
    let k = last_dot(name);
    k > 0 && (name.subrange(k + 1, name.len() as int) == "yml"@ || name.subrange(
        k + 1,
        name.len() as int,
    ) == "yaml"@)
}

/// Index of the last `.` of `v` (exec), `None` when there is none.
fn last_dot_index(v: &Vec<char>) -> (r: Option<usize>)
    ensures
        match r {
            Some(k) => last_dot(v@) == k,
            None => last_dot(v@) == -1,
        },
{
    let mut i: usize = v.len();
    while i > 0
        invariant
            i <= v@.len(),
            forall|j: int| i <= j < v@.len() ==> v@[j] != '.',
        decreases i,
    {
        if v[i - 1] == '.' {
            proof {
                lemma_last_dot_at(v@, i - 1);
            }
            return Some(i - 1);
        }
        i = i - 1;
    }
    proof {
        lemma_last_dot_at(v@, -1);
    }
    None
}

/// `last_dot` is the position of a `.` with none after it.
proof fn lemma_last_dot_at(s: Seq<char>, k: int)
    requires
        -1 <= k < s.len(),
        k >= 0 ==> s[k] == '.',
        forall|j: int| k < j < s.len() ==> s[j] != '.',
    ensures
        last_dot(s) == k,
    decreases s.len(),
{
    if s.len() > 0 && s.last() != '.' {
        assert forall|j: int| k < j < s.len() - 1 implies s.drop_last()[j] != '.' by {
            assert(s.drop_last()[j] == s[j]);
        }
        if k >= 0 {
            assert(s.drop_last()[k] == s[k]);
        }
        lemma_last_dot_at(s.drop_last(), k);
    }
}

/// What a `gh api … --jq …` call answered: its trimmed output, or `None`
/// when it could not run, failed, or printed nothing.
pub open spec fn gh_answer_of(res: Result<CmdOutput, String>) -> Option<Seq<char>> {
    match res {
        Ok(o) => if o.status == 0 && trimmed(o.stdout@).len() > 0 {
            Some(trimmed(o.stdout@))
        } else {
            None
        },
        Err(_) => None,
    }
}

/// What a `gh` call answered (exec).
pub fn gh_answer(res: Result<CmdOutput, String>) -> (r: Option<String>)
    ensures
        match r {
            Some(s) => gh_answer_of(res) == Some(s@),
            None => gh_answer_of(res) is None,
        },
{
    match res {
        Ok(o) => {
            if !o.ok() {
                return None;
            }
            let s = trim(o.stdout.as_str());
            if chars_of(s.as_str()).len() == 0 {
                None
            } else {
                Some(s)
            }
        },
        Err(_) => None,
    }
}

/// The views of a slice of command arguments.
pub open spec fn args_view(a: &[&str]) -> Seq<Seq<char>> {
    a@.map_values(|x: &str| x@)
}

/// `gh`, asked with the arguments `args`, gave `res`.
pub open spec fn gh_gave<F: Fn(&[&str]) -> Result<CmdOutput, String>>(
    gh: F,
    args: Seq<Seq<char>>,
    res: Result<CmdOutput, String>,
) -> bool {
    exists|x: &[&str]| #[trigger] call_ensures(gh, (x,), res) && args_view(x) == args
}

/// Calls `gh` with `args` and reads its answer: the result is what
/// [`gh_answer_of`] reads from what `gh` gave for these arguments.
pub fn gh_json<F: Fn(&[&str]) -> Result<CmdOutput, String>>(gh: &F, args: &[&str]) -> (r: Option<
    String,
>)
    requires
        call_requires(*gh, (args,)),
    ensures
        exists|res: Result<CmdOutput, String>|
            {
                &&& #[trigger] call_ensures(*gh, (args,), res)
                &&& match r {
                    Some(s) => gh_answer_of(res) == Some(s@),
                    None => gh_answer_of(res) is None,
                }
            },
{
    let res = gh(args);
    let ghost given = res;
    let r = gh_answer(res);
    assert(match r {
        Some(s) => gh_answer_of(given) == Some(s@),
        None => gh_answer_of(given) is None,
    });
    r
}

/// `api repos/{owner}/{repo}/releases/latest --jq .tag_name`
pub open spec fn release_args(owner: Seq<char>, repo: Seq<char>) -> Seq<Seq<char>> {
    seq!["api"@, "repos/"@ + owner + "/"@ + repo + "/releases/latest"@, "--jq"@, ".tag_name"@]
}

/// `api repos/{owner}/{repo}/tags --jq .[].name`
pub open spec fn tags_args(owner: Seq<char>, repo: Seq<char>) -> Seq<Seq<char>> {
    seq!["api"@, "repos/"@ + owner + "/"@ + repo + "/tags"@, "--jq"@, ".[].name"@]
}

/// `api repos/{owner}/{repo}/commits/{tag} --jq .sha`
pub open spec fn commit_args(owner: Seq<char>, repo: Seq<char>, tag: Seq<char>) -> Seq<Seq<char>> {
    seq!["api"@, "repos/"@ + owner + "/"@ + repo + "/commits/"@ + tag, "--jq"@, ".sha"@]
}

/// The view of a resolved tag and commit.
pub open spec fn pair_view(r: Option<(String, String)>) -> Option<(Seq<char>, Seq<char>)> {
    match r {
        Some((t, c)) => Some((t@, c@)),
        None => None,
    }
}

/// The lines of `s` (split at each line feed).
pub open spec fn lines_of(s: Seq<char>) -> Seq<Seq<char>>
    decreases s.len(),
{
    if s.len() == 0 {
        seq![Seq::<char>::empty()]
    } else if s.last() == '\n' {
        lines_of(s.drop_last()).push(Seq::<char>::empty())
    } else {
        let l = lines_of(s.drop_last());
        l.update(l.len() - 1, l.last().push(s.last()))
    }
}

proof fn lemma_lines_nonempty(s: Seq<char>)
    ensures
        lines_of(s).len() > 0,
    decreases s.len(),
{
    if s.len() > 0 {
        lemma_lines_nonempty(s.drop_last());
    }
}

/// The newest of `names` that starts with a major number, by version key; the
/// first of equal keys wins.
pub open spec fn newest_release_like(names: Seq<Seq<char>>) -> Option<Seq<char>>
    decreases names.len(),
{
    if names.len() == 0 {
        None
    } else {
        let b = newest_release_like(names.drop_last());
        let n = names.last();
        if lead_major(n) is None {
            b
        } else {
            match b {
                None => Some(n),
                Some(bn) => if key_lt(version_key_of(bn), version_key_of(n)) {
                    Some(n)
                } else {
                    b
                },
            }
        }
    }
}

/// The tag found from `gh`'s answers for a repository: the latest release's
/// tag (`release`), else the newest of the repository's tags (`tags`, one
/// per line) that starts with a major number.
pub open spec fn gh_tag(release: Option<Seq<char>>, tags: Option<Seq<char>>) -> Option<Seq<char>> {
    match release {
        Some(t) => Some(t),
        None => match tags {
            Some(text) => newest_release_like(lines_of(text)),
            None => None,
        },
    }
}

/// The tag and commit found from `gh`'s answers: the tag as [`gh_tag`] finds
/// it, then the commit that `gh` gave for that tag (`commit`).
pub open spec fn gh_resolution(
    release: Option<Seq<char>>,
    tags: Option<Seq<char>>,
    commit: Option<Seq<char>>,
) -> Option<(Seq<char>, Seq<char>)> {
    match gh_tag(release, tags) {
        None => None,
        Some(t) => match commit {
            None => None,
            Some(sha) => Some((t, sha)),
        },
    }
}

/// The lines of `text` (exec).
fn split_lines(text: &str) -> (r: Vec<String>)
    ensures
        views_of(r@) == lines_of(text@),
{
    let v = chars_of(text);
    let mut done: Vec<String> = Vec::new();
    let mut cur: Vec<char> = Vec::new();
    let mut i: usize = 0;
    while i < v.len()
        invariant
            i <= v@.len(),
            v@ == text@,
            views_of(done@).push(cur@) == lines_of(v@.subrange(0, i as int)),
        decreases v@.len() - i,
    {
        let ghost sub = v@.subrange(0, i + 1);
        assert(sub.drop_last() =~= v@.subrange(0, i as int));
        proof {
            lemma_lines_nonempty(v@.subrange(0, i as int));
        }
        if v[i] == '\n' {
            let line = string_of(cur.as_slice());
            done.push(line);
            cur = Vec::new();
            assert(views_of(done@).push(cur@) =~= lines_of(sub));
        } else {
            cur.push(v[i]);
            assert(views_of(done@).push(cur@) =~= lines_of(sub));
        }
        i = i + 1;
    }
    assert(v@.subrange(0, v@.len() as int) =~= v@);
    done.push(string_of(cur.as_slice()));
    done
}

/// The newest of `names` that starts with a major number (exec).
fn newest_release_tag(names: &Vec<String>) -> (r: Option<String>)
    ensures
        match r {
            Some(t) => newest_release_like(views_of(names@)) == Some(t@),
            None => newest_release_like(views_of(names@)) is None,
        },
{
    let ghost all = views_of(names@);
    let mut best: Option<(Vec<u64>, String)> = None;
    let mut i: usize = 0;
    while i < names.len()
        invariant
            i <= names@.len(),
            all == views_of(names@),
            match best {
                Some((k, n)) => newest_release_like(all.subrange(0, i as int)) == Some(n@) && k@
                    == version_key_of(n@),
                None => newest_release_like(all.subrange(0, i as int)) is None,
            },
        decreases names@.len() - i,
    {
        let ghost sub = all.subrange(0, i + 1);
        assert(sub.drop_last() =~= all.subrange(0, i as int));
        assert(sub.last() == names@[i as int]@);
        let name = names[i].clone();
        if has_lead_major(name.as_str()) {
            let key = version_key(name.as_str());
            let better = match &best {
                None => true,
                Some((bk, _)) => key_less(bk, &key),
            };
            if better {
                best = Some((key, name));
            }
        }
        i = i + 1;
    }
    assert(all.subrange(0, all.len() as int) =~= all);
    match best {
        Some((_, n)) => Some(n),
        None => None,
    }
}

/// The GitHub Actions updater.
pub struct GithubActions;

impl Updater for GithubActions {
    fn ecosystem(&self) -> (e: Ecosystem)
        ensures
            e == Ecosystem::Actions,
    {
        Ecosystem::Actions
    }
}

impl GithubActions {
    /// Resolves `owner/repo` with `gh api`: the latest release's tag (else
    /// the newest tag that starts with a major number), then the commit it
    /// points at. `None` when either answer is missing. `gh` runs the
    /// command with the arguments it is handed; the result is what
    /// [`gh_resolution`] finds from what it gave to the release query, to the
    /// tags query (asked only when the release query gave nothing) and to the
    /// commit query for the tag found.
    pub fn gh_resolve<F: Fn(&[&str]) -> Result<CmdOutput, String>>(
        gh: &F,
        owner: &str,
        repo: &str,
    ) -> (r: Option<(String, String)>)
        requires
            forall|x: &[&str]| call_requires(*gh, (x,)),
        ensures
            exists|
                release: Result<CmdOutput, String>,
                tags: Result<CmdOutput, String>,
                commit: Result<CmdOutput, String>,
            |
                {
                    &&& pair_view(r) == #[trigger] gh_resolution(
                        gh_answer_of(release),
                        gh_answer_of(tags),
                        gh_answer_of(commit),
                    )
                    &&& gh_gave(*gh, release_args(owner@, repo@), release)
                    &&& gh_answer_of(release) is None ==> gh_gave(
                        *gh,
                        tags_args(owner@, repo@),
                        tags,
                    )
                    &&& gh_tag(gh_answer_of(release), gh_answer_of(tags)) matches Some(t)
                        ==> gh_gave(*gh, commit_args(owner@, repo@, t), commit)
                },
    {
        let ghost unasked: Result<CmdOutput, String> = Err(arbitrary());
        let a = concat("repos/", owner);
        let b = concat(a.as_str(), "/");
        let c = concat(b.as_str(), repo);
        let release = concat(c.as_str(), "/releases/latest");
        let args1: Vec<&str> = vec!["api", release.as_str(), "--jq", ".tag_name"];
        let args1 = args1.as_slice();
        assert(args_view(args1) =~= release_args(owner@, repo@));
        let first = gh_json(gh, args1);
        let ghost w1 = choose|res: Result<CmdOutput, String>|
            {
                &&& #[trigger] call_ensures(*gh, (args1,), res)
                &&& match first {
                    Some(s) => gh_answer_of(res) == Some(s@),
                    None => gh_answer_of(res) is None,
                }
            };
        assert(gh_gave(*gh, release_args(owner@, repo@), w1));
        let ghost mut w2 = unasked;
        let found = match first {
            Some(t) => Some(t),
            None => {
                let listing = concat(c.as_str(), "/tags");
                let args_tags: Vec<&str> = vec!["api", listing.as_str(), "--jq", ".[].name"];
                let args_tags = args_tags.as_slice();
                assert(args_view(args_tags) =~= tags_args(owner@, repo@));
                let second = gh_json(gh, args_tags);
                proof {
                    w2 =
                    choose|res: Result<CmdOutput, String>|
                        {
                            &&& #[trigger] call_ensures(*gh, (args_tags,), res)
                            &&& match second {
                                Some(s) => gh_answer_of(res) == Some(s@),
                                None => gh_answer_of(res) is None,
                            }
                        };
                    assert(gh_gave(*gh, tags_args(owner@, repo@), w2));
                }
                match second {
                    Some(text) => newest_release_tag(&split_lines(text.as_str())),
                    None => None,
                }
            },
        };
        assert(match found {
            Some(t) => gh_tag(gh_answer_of(w1), gh_answer_of(w2)) == Some(t@),
            None => gh_tag(gh_answer_of(w1), gh_answer_of(w2)) is None,
        });
        let tag = match found {
            Some(t) => t,
            None => {
                assert(pair_view(None) == gh_resolution(
                    gh_answer_of(w1),
                    gh_answer_of(w2),
                    gh_answer_of(unasked),
                ));
                return None;
            },
        };
        let d = concat(c.as_str(), "/commits/");
        let commit = concat(d.as_str(), tag.as_str());
        let args2: Vec<&str> = vec!["api", commit.as_str(), "--jq", ".sha"];
        let args2 = args2.as_slice();
        assert(args_view(args2) =~= commit_args(owner@, repo@, tag@));
        let third = gh_json(gh, args2);
        let ghost w3 = choose|res: Result<CmdOutput, String>|
            {
                &&& #[trigger] call_ensures(*gh, (args2,), res)
                &&& match third {
                    Some(s) => gh_answer_of(res) == Some(s@),
                    None => gh_answer_of(res) is None,
                }
            };
        assert(gh_gave(*gh, commit_args(owner@, repo@, tag@), w3));
        let r = match third {
            Some(sha) => Some((tag, sha)),
            None => None,
        };
        assert(pair_view(r) == gh_resolution(gh_answer_of(w1), gh_answer_of(w2), gh_answer_of(w3)));
        r
    }
}

impl GithubActions {
    /// Whether a file called `name` is a workflow file.
    pub fn is_workflow(name: &str) -> (r: bool)
        ensures
            r == workflow_name(name@),
    {
        let v = chars_of(name);
        match last_dot_index(&v) {
            Some(k) => {
                if k == 0 {
                    return false;
                }
                proof {
                    lemma_last_dot(v@);
                }
                let mut ext: Vec<char> = Vec::new();
                push_range(&mut ext, v.as_slice(), k + 1, v.len());
                let e = string_of(ext.as_slice());
                let yml = "yml".to_owned();
                let yaml = "yaml".to_owned();
                e == yml || e == yaml
            },
            None => false,
        }
    }
}

impl GithubActions {
    /// Present with the workflow files found, absent when there are none.
    pub fn detect(&self, found: Vec<String>) -> (d: Detection)
        ensures
            detected_files(d, found@, "no .github/workflows"@),
    {
        detect_files(found, "no .github/workflows")
    }
}

pub open spec fn msg_no_gh() -> Seq<char> {
    "`gh` not on PATH — skipped"@
}

/// Where an Actions run stands.
#[derive(Clone, Copy, PartialEq, Eq, Structural)]
pub enum ActionsPhase {
    AwaitWhich,
    AwaitRewrite,
    AwaitWrite,
    Finished,
}

/// The step a run in `phase` has asked for is of the right kind.
pub open spec fn actions_step_fits(phase: ActionsPhase, s: StepView) -> bool {
    match phase {
        ActionsPhase::AwaitWhich => s is Which,
        ActionsPhase::AwaitRewrite => s is Rewrite,
        ActionsPhase::AwaitWrite => s is Write,
        ActionsPhase::Finished => s is Done,
    }
}

/// An Actions run in progress over the workflow files `targets`.
pub struct ActionsRun {
    pub phase: ActionsPhase,
    pub dry_run: bool,
    pub frozen: bool,
    pub targets: Vec<String>,
    /// The workflow file being handled.
    pub next: usize,
    /// Changes of the files already handled.
    pub changes: Vec<Change>,
    /// Changes of the file being written.
    pub pending: Vec<Change>,
}

/// The outcome once every file is handled: applied, or would-change in a
/// dry run.
pub open spec fn actions_outcome(changes: Seq<ChangeView>, dry_run: bool) -> OutcomeView {
    let o = applied_view(changes);
    if dry_run && o.status == Status::Applied {
        OutcomeView { status: Status::WouldChange, ..o }
    } else {
        o
    }
}

impl ActionsRun {
    pub open spec fn wf(self) -> bool {
        &&& self.next <= self.targets.len()
        &&& (self.phase == ActionsPhase::AwaitRewrite || self.phase == ActionsPhase::AwaitWrite)
            ==> self.next < self.targets.len()
        &&& self.phase == ActionsPhase::AwaitWrite ==> !self.dry_run
    }

    /// The step once the files before `next` are handled with changes `cv`:
    /// the next file, or the outcome.
    pub open spec fn advance_at(self, next: int, cv: Seq<ChangeView>) -> StepView {
        if next < self.targets@.len() {
            StepView::Rewrite(self.targets@[next]@, self.frozen)
        } else {
            StepView::Done(actions_outcome(cv, self.dry_run))
        }
    }

    /// How many steps the run may still take.
    pub open spec fn rank(self) -> nat {
        let files = (self.targets@.len() - self.next) as nat;
        match self.phase {
            ActionsPhase::AwaitWhich => 2 * self.targets@.len() + 2,
            ActionsPhase::AwaitRewrite => 2 * files,
            ActionsPhase::AwaitWrite => (2 * files - 1) as nat,
            ActionsPhase::Finished => 0,
        }
    }

    /// Asks for the next file, or finishes.
    fn go_on(&mut self) -> (r: Step)
        requires
            old(self).next <= old(self).targets@.len(),
        ensures
            r@ == old(self).advance_at(old(self).next as int, change_views(old(self).changes@)),
            final(self).next == old(self).next,
            final(self).targets@ == old(self).targets@,
            final(self).dry_run == old(self).dry_run,
            final(self).frozen == old(self).frozen,
            old(self).next < old(self).targets@.len() ==> final(self).changes@ == old(self).changes@
                && final(self).phase == ActionsPhase::AwaitRewrite,
            old(self).next >= old(self).targets@.len() ==> final(self).phase == ActionsPhase::Finished,
    {
        if self.next < self.targets.len() {
            self.phase = ActionsPhase::AwaitRewrite;
            Step::Rewrite(self.targets[self.next].clone(), self.frozen)
        } else {
            self.phase = ActionsPhase::Finished;
            let mut changes = Vec::new();
            std::mem::swap(&mut changes, &mut self.changes);
            let mut out = UpdateOutcome::applied(changes);
            if self.dry_run && out.status == Status::Applied {
                out.status = Status::WouldChange;
            }
            Step::Done(out)
        }
    }
}

impl GithubActions {
    /// Starts an Actions run: asks whether `gh` is on PATH, unless there are
    /// no workflow files.
    pub fn start(&self, ctx: &RunCtx, det: &Detection) -> (r: (ActionsRun, Step))
        ensures
            r.0.wf(),
            r.0.dry_run == ctx.dry_run,
            r.0.frozen == ctx.freeze@.contains(Ecosystem::Actions),
            actions_step_fits(r.0.phase, r.1@),
            det is Absent ==> r.1@ == StepView::Done(
                warned_view(Status::NotPresent, "no .github/workflows"@),
            ) && r.0.phase == ActionsPhase::Finished,
            det matches Detection::Present { targets } ==> r.1@ == StepView::Which("gh"@)
                && r.0.phase == ActionsPhase::AwaitWhich && r.0.targets@ == targets@ && r.0.next == 0
                && r.0.changes@.len() == 0,
    {
        let frozen = ctx.is_frozen(Ecosystem::Actions);
        match det {
            Detection::Absent { .. } => (
                ActionsRun {
                    phase: ActionsPhase::Finished,
                    dry_run: ctx.dry_run,
                    frozen,
                    targets: Vec::new(),
                    next: 0,
                    changes: Vec::new(),
                    pending: Vec::new(),
                },
                Step::Done(UpdateOutcome::not_present("no .github/workflows")),
            ),
            Detection::Present { targets } => (
                ActionsRun {
                    phase: ActionsPhase::AwaitWhich,
                    dry_run: ctx.dry_run,
                    frozen,
                    targets: copy_strings(targets),
                    next: 0,
                    changes: Vec::new(),
                    pending: Vec::new(),
                },
                Step::Which("gh".to_owned()),
            ),
        }
    }
}

impl ActionsRun {
    /// Answers the last step and returns the next one.
    pub fn step(&mut self, ev: Event) -> (r: Step)
        requires
            old(self).wf(),
            old(self).phase != ActionsPhase::Finished,
            old(self).phase == ActionsPhase::AwaitWhich ==> ev is Found,
            old(self).phase == ActionsPhase::AwaitRewrite ==> ev is Rewritten || ev is Unreadable,
            old(self).phase == ActionsPhase::AwaitWrite ==> ev is Wrote,
        ensures
            final(self).wf(),
            final(self).dry_run == old(self).dry_run,
            final(self).frozen == old(self).frozen,
            final(self).targets@ == old(self).targets@,
            final(self).rank() < old(self).rank(),
            actions_step_fits(final(self).phase, r@),
            final(self).phase != ActionsPhase::AwaitWhich,
            old(self).dry_run ==> !touches_repo(r@),
            old(self).phase == ActionsPhase::AwaitWhich ==> {
                &&& ev == Event::Found(false) ==> r@ == StepView::Done(
                    warned_view(Status::Warned, msg_no_gh()),
                )
                &&& ev == Event::Found(true) ==> r@ == old(self).advance_at(
                    0,
                    change_views(old(self).changes@),
                ) && final(self).next == 0
            },
            old(self).phase == ActionsPhase::AwaitRewrite ==> match ev {
                Event::Unreadable => final(self).next == old(self).next + 1 && r@ == old(
                    self,
                ).advance_at(old(self).next + 1, change_views(old(self).changes@)),
                Event::Rewritten(text, ch) => if ch@.len() > 0 && !old(self).dry_run {
                    &&& r@ == StepView::Write(old(self).targets@[old(self).next as int]@, text@)
                    &&& final(self).next == old(self).next
                    &&& final(self).pending@ == ch@
                    &&& final(self).changes@ == old(self).changes@
                } else {
                    &&& final(self).next == old(self).next + 1
                    &&& r@ == old(self).advance_at(
                        old(self).next + 1,
                        change_views(old(self).changes@) + change_views(ch@),
                    )
                },
                _ => true,
            },
            old(self).phase == ActionsPhase::AwaitWrite ==> match ev {
                Event::Wrote(Ok(())) => {
                    &&& final(self).next == old(self).next + 1
                    &&& r@ == old(self).advance_at(
                        old(self).next + 1,
                        change_views(old(self).changes@) + change_views(old(self).pending@),
                    )
                },
                Event::Wrote(Err(e)) => r@ == StepView::Done(
                    errored_view(
                        "write "@ + old(self).targets@[old(self).next as int]@ + ": "@ + e@,
                    ),
                ),
                _ => true,
            },
            final(self).phase != ActionsPhase::Finished ==> change_views(final(self).changes@)
                == match r@ {
                StepView::Rewrite(..) => if old(self).phase == ActionsPhase::AwaitWrite {
                    change_views(old(self).changes@) + change_views(old(self).pending@)
                } else {
                    match ev {
                        Event::Rewritten(_, ch) => change_views(old(self).changes@) + change_views(
                            ch@,
                        ),
                        _ => change_views(old(self).changes@),
                    }
                },
                _ => change_views(old(self).changes@),
            },
    {
        match self.phase {
            ActionsPhase::AwaitWhich => {
                let found = match ev {
                    Event::Found(f) => f,
                    _ => false,
                };
                if !found {
                    self.phase = ActionsPhase::Finished;
                    return Step::Done(UpdateOutcome::warned("`gh` not on PATH — skipped"));
                }
                self.next = 0;
                self.go_on()
            },
            ActionsPhase::AwaitRewrite => {
                match ev {
                    Event::Rewritten(text, ch) => {
                        if ch.len() > 0 && !self.dry_run {
                            self.phase = ActionsPhase::AwaitWrite;
                            self.pending = ch;
                            return Step::Write(self.targets[self.next].clone(), text);
                        }
                        extend_changes(&mut self.changes, ch);
                    },
                    _ => {},
                }
                self.next = self.next + 1;
                self.go_on()
            },
            _ => {
                match ev {
                    Event::Wrote(Err(e)) => {
                        self.phase = ActionsPhase::Finished;
                        let path = self.targets[self.next].clone();
                        let head = concat("write ", path.as_str());
                        let head = concat(head.as_str(), ": ");
                        let msg = concat(head.as_str(), e.as_str());
                        return Step::Done(UpdateOutcome::errored(msg.as_str()));
                    },
                    _ => {},
                }
                let mut pending = Vec::new();
                std::mem::swap(&mut pending, &mut self.pending);
                extend_changes(&mut self.changes, pending);
                self.next = self.next + 1;
                self.go_on()
            },
        }
    }
}

/// Exec image of [`UsesSpan`].
struct Found {
    start: usize,
    owner: usize,
    slash: usize,
    at: usize,
    ref_end: usize,
    cver: Option<(usize, usize)>,
}

impl Found {
    spec fn span(self) -> UsesSpan {
        UsesSpan {
            start: self.start as int,
            owner: self.owner as int,
            slash: self.slash as int,
            at: self.at as int,
            ref_end: self.ref_end as int,
            cver: match self.cver {
                Some(c) => Some((c.0 as int, c.1 as int)),
                None => None,
            },
        }
    }

    fn end(&self) -> (e: usize)
        ensures
            e == self.span().end(),
    {
        match self.cver {
            Some(c) => c.1,
            None => self.ref_end,
        }
    }
}

fn pin_comment_at(s: &[char], re: usize) -> (r: Option<(usize, usize)>)
    requires
        re <= s@.len(),
    ensures
        match r {
            Some(c) => pin_comment(s@, re as int) == Some((c.0 as int, c.1 as int)),
            None => pin_comment(s@, re as int) is None,
        },
{
    let h = re + space_run_len(s, re);
    if h < s.len() && s[h] == '#' {
        let q = h + 1 + space_run_len(s, h + 1);
        let frozen_kw = ['f', 'r', 'o', 'z', 'e', 'n', ':'];
        assert(frozen_kw@ =~= frozen_keyword());
        if matches_at(s, frozen_kw.as_slice(), q) {
            let r = q + 7 + space_run_len(s, q + 7);
            if r < s.len() {
                return Some((r, r + nonspace_run_len(s, r)));
            }
        }
        if q < s.len() {
            return Some((q, q + nonspace_run_len(s, q)));
        }
        None
    } else {
        None
    }
}

fn uses_at_exec(s: &[char], i: usize) -> (r: Option<Found>)
    requires
        i < s@.len(),
    ensures
        match r {
            Some(f) => uses_at(s@, i as int) == Some(f.span()),
            None => uses_at(s@, i as int) is None,
        },
{
    let kw = ['u', 's', 'e', 's', ':'];
    assert(kw@ =~= uses_keyword());
    if !matches_at(s, kw.as_slice(), i) {
        return None;
    }
    if i > 0 && is_word_char(s[i - 1]) {
        return None;
    }
    let o = i + 5 + space_run_len(s, i + 5);
    if !(o < s.len() && class_has(s[o], ALNUM)) {
        return None;
    }
    let sl = o + 1 + class_run_len(s, o + 1, ALNUM_DASH);
    if !(sl < s.len() && s[sl] == '/') {
        return None;
    }
    let rn = class_run_len(s, sl + 1, ALNUM_DOT_DASH);
    if rn == 0 {
        return None;
    }
    let at = sl + 1 + rn;
    if !(at < s.len() && s[at] == '@') {
        return None;
    }
    let fnl = class_run_len(s, at + 1, ALNUM_DOT_SLASH_DASH);
    if fnl == 0 {
        return None;
    }
    let re = at + 1 + fnl;
    let cver = pin_comment_at(s, re);
    Some(Found { start: i, owner: o, slash: sl, at, ref_end: re, cver })
}

fn next_uses_exec(s: &[char], from: usize) -> (r: Option<Found>)
    requires
        from <= s@.len(),
    ensures
        match r {
            Some(f) => next_uses(s@, from as int) == Some(f.span()),
            None => next_uses(s@, from as int) is None,
        },
{
    let mut i = from;
    while i < s.len()
        invariant
            from <= i <= s@.len(),
            next_uses(s@, from as int) == next_uses(s@, i as int),
        decreases s@.len() - i,
    {
        match uses_at_exec(s, i) {
            Some(f) => {
                return Some(f);
            },
            None => {},
        }
        i = i + 1;
    }
    None
}

fn is_sha(r: &[char]) -> (b: bool)
    ensures
        b == is_sha40(r@),
{
    if r.len() != 40 {
        return false;
    }
    let mut j: usize = 0;
    while j < 40
        invariant
            r@.len() == 40,
            j <= 40,
            forall|t: int| 0 <= t < j ==> in_class(#[trigger] r@[t], LOWER_HEX),
        decreases 40 - j,
    {
        if !class_has(r[j], LOWER_HEX) {
            return false;
        }
        j = j + 1;
    }
    true
}

/// Rewrite every `uses:` pin in `text`. `resolve(owner, repo)` yields
/// `(latest_tag, commit_sha)`. Returns the new text and the changes made.
///
/// The resolver is asked once per pin, in order; the result is the rewrite of
/// the text under the answers it gave.
pub fn rewrite_uses<F: Fn(&str, &str) -> Option<(String, String)>>(
    text: &str,
    frozen: bool,
    resolve: F,
) -> (r: (String, Vec<Change>))
    requires
        forall|x: &str, y: &str| call_requires(resolve, (x, y)),
    ensures
        exists|ans: Seq<Option<(Seq<char>, Seq<char>)>>|
            {
                &&& has_n_pins(text@, ans.len())
                &&& forall|k: nat|
                    k < ans.len() ==> resolved_by(
                        resolve,
                        text@.subrange(uses_nth(text@, k)->0.owner, uses_nth(text@, k)->0.slash),
                        text@.subrange(uses_nth(text@, k)->0.slash + 1, uses_nth(text@, k)->0.at),
                        #[trigger] ans[k as int],
                    )
                &&& r.0@ == uses_rewrite_of(text@, frozen, ans).0
                &&& change_views(r.1@) == uses_rewrite_of(text@, frozen, ans).1
            },
{
    let sv = chars_of(text);
    let s = sv.as_slice();
    let mut out: Vec<char> = Vec::new();
    let mut changes: Vec<Change> = Vec::new();
    let mut pos: usize = 0;
    let ghost mut ans: Seq<Option<(Seq<char>, Seq<char>)>> = seq![];
    loop
        invariant
            s@ == text@,
            forall|x: &str, y: &str| call_requires(resolve, (x, y)),
            pos <= s@.len(),
            pos == uses_pos(s@, ans.len()),
            forall|k: nat| k < ans.len() ==> #[trigger] uses_nth(s@, k) is Some,
            forall|k: nat|
                k < ans.len() ==> resolved_by(
                    resolve,
                    s@.subrange(uses_nth(s@, k)->0.owner, uses_nth(s@, k)->0.slash),
                    s@.subrange(uses_nth(s@, k)->0.slash + 1, uses_nth(s@, k)->0.at),
                    #[trigger] ans[k as int],
                ),
            out@ == uses_done(s@, frozen, ans).0,
            change_views(changes@) == uses_done(s@, frozen, ans).1,
        decreases s@.len() - pos,
    {
        let found = next_uses_exec(s, pos);
        match found {
            None => {
                push_range(&mut out, s, pos, s.len());
                proof {
                    assert(uses_nth(s@, ans.len()) is None);
                }
                let new_text = string_of(out.as_slice());
                return (new_text, changes);
            },
            Some(f) => {
                proof {
                    lemma_next_uses(s@, pos as int);
                    lemma_uses_at(s@, f.start as int);
                }
                let owner = string_of(&s[f.owner..f.slash]);
                let repo = string_of(&s[f.slash + 1..f.at]);
                let answer = resolve(owner.as_str(), repo.as_str());
                let ghost a = answer_view(answer);
                proof {
                    assert(resolved_by(resolve, owner@, repo@, a));
                }
                // the gap before the pin
                push_range(&mut out, s, pos, f.start);
                let end = f.end();
                let ghost before_out = out@;
                let ghost before_changes = change_views(changes@);
                let ghost rep = uses_replacement(s@, f.span(), frozen, a);
                replace_pin(s, &f, frozen, answer, &mut out, &mut changes);
                proof {
                    let k = ans.len();
                    let ans2 = ans.push(a);
                    assert(ans2.drop_last() =~= ans);
                    assert(uses_pos(s@, (ans2.len() - 1) as nat) == pos);
                    assert(uses_pos(s@, ans2.len()) == end);
                    assert forall|j: nat| j < ans2.len() implies #[trigger] uses_nth(s@, j) is Some by {
                        if j < k {
                        } else {
                            assert(j == k);
                        }
                    }
                    assert forall|j: nat|
                        j < ans2.len() implies resolved_by(
                        resolve,
                        s@.subrange(uses_nth(s@, j)->0.owner, uses_nth(s@, j)->0.slash),
                        s@.subrange(uses_nth(s@, j)->0.slash + 1, uses_nth(s@, j)->0.at),
                        #[trigger] ans2[j as int],
                    ) by {
                        if j < k {
                            assert(ans2[j as int] == ans[j as int]);
                        } else {
                            assert(j == k);
                            assert(owner@ =~= s@.subrange(f.owner as int, f.slash as int));
                            assert(repo@ =~= s@.subrange(f.slash + 1, f.at as int));
                        }
                    }
                    assert(change_views(changes@) =~= before_changes + rep.1);
                    ans = ans2;
                }
                pos = end;
            },
        }
    }
}

/// The characters of `owner/repo` for pin `f`.
fn action_chars(s: &[char], f: &Found) -> (v: Vec<char>)
    requires
        uses_at(s@, f.start as int) == Some(f.span()),
    ensures
        v@ == action_of(s@, f.span()),
{
    proof {
        lemma_uses_at(s@, f.start as int);
    }
    let mut action_v: Vec<char> = Vec::new();
    push_range(&mut action_v, s, f.owner, f.slash);
    action_v.push('/');
    push_range(&mut action_v, s, f.slash + 1, f.at);
    assert(action_v@ =~= action_of(s@, f.span()));
    action_v
}

fn replace_frozen(
    s: &[char],
    f: &Found,
    latest: String,
    sha: String,
    out: &mut Vec<char>,
    changes: &mut Vec<Change>,
)
    requires
        uses_at(s@, f.start as int) == Some(f.span()),
    ensures
        final(out)@ == old(out)@ + frozen_replacement(s@, f.span(), latest@, sha@).0,
        change_views(final(changes)@) == change_views(old(changes)@) + frozen_replacement(
            s@,
            f.span(),
            latest@,
            sha@,
        ).1,
{
    proof {
        lemma_uses_at(s@, f.start as int);
    }
    let ghost rep = frozen_replacement(s@, f.span(), latest@, sha@);
    let end = f.end();
    let cur_ref_v = &s[f.at + 1..f.ref_end];
    let cur_ref = string_of(cur_ref_v);
    let old_ver = match f.cver {
        Some(c) => string_of(&s[c.0..c.1]),
        None => string_of(cur_ref_v),
    };
    let new_ver = desired_tag(old_ver.as_str(), latest.as_str());
    if is_sha(cur_ref_v) && cur_ref == sha {
        push_range(out, s, f.start, end);
        assert(change_views(changes@) =~= change_views(old(changes)@) + rep.1);
    } else {
        let action_v = action_chars(s, f);
        push_range(out, s, f.start, f.owner);
        push_range(out, action_v.as_slice(), 0, action_v.len());
        out.push('@');
        push_str(out, sha.as_str());
        push_str(out, "  # frozen: ");
        push_str(out, new_ver.as_str());
        proof {
            reveal_strlit("  # frozen: ");
            assert(action_v@.subrange(0, action_v@.len() as int) =~= action_v@);
            assert(out@ =~= old(out)@ + rep.0);
        }
        changes.push(
            Change {
                name: string_of(action_v.as_slice()),
                from: old_ver,
                to: new_ver,
                kind: ChangeKind::Pin,
            },
        );
        assert(change_views(changes@) =~= change_views(old(changes)@) + rep.1);
    }
}

fn replace_floating(
    s: &[char],
    f: &Found,
    latest: String,
    out: &mut Vec<char>,
    changes: &mut Vec<Change>,
)
    requires
        uses_at(s@, f.start as int) == Some(f.span()),
    ensures
        final(out)@ == old(out)@ + floating_replacement(s@, f.span(), latest@).0,
        change_views(final(changes)@) == change_views(old(changes)@) + floating_replacement(
            s@,
            f.span(),
            latest@,
        ).1,
{
    proof {
        lemma_uses_at(s@, f.start as int);
    }
    let ghost rep = floating_replacement(s@, f.span(), latest@);
    let end = f.end();
    let cur_ref_v = &s[f.at + 1..f.ref_end];
    let cur_ref = string_of(cur_ref_v);
    let new_ref = desired_tag(cur_ref.as_str(), latest.as_str());
    if is_sha(cur_ref_v) || new_ref == cur_ref {
        push_range(out, s, f.start, end);
        assert(change_views(changes@) =~= change_views(old(changes)@) + rep.1);
    } else {
        let action_v = action_chars(s, f);
        push_range(out, s, f.start, f.owner);
        push_range(out, action_v.as_slice(), 0, action_v.len());
        out.push('@');
        push_str(out, new_ref.as_str());
        push_range(out, s, f.ref_end, end);
        proof {
            assert(action_v@.subrange(0, action_v@.len() as int) =~= action_v@);
            assert(out@ =~= old(out)@ + rep.0);
        }
        changes.push(
            Change {
                name: string_of(action_v.as_slice()),
                from: cur_ref,
                to: new_ref,
                kind: ChangeKind::Pin,
            },
        );
        assert(change_views(changes@) =~= change_views(old(changes)@) + rep.1);
    }
}

/// Appends the replacement of pin `f` to `out` and its change to `changes`.
fn replace_pin(
    s: &[char],
    f: &Found,
    frozen: bool,
    answer: Option<(String, String)>,
    out: &mut Vec<char>,
    changes: &mut Vec<Change>,
)
    requires
        uses_at(s@, f.start as int) == Some(f.span()),
    ensures
        final(out)@ == old(out)@ + uses_replacement(s@, f.span(), frozen, answer_view(answer)).0,
        change_views(final(changes)@) == change_views(old(changes)@) + uses_replacement(
            s@,
            f.span(),
            frozen,
            answer_view(answer),
        ).1,
{
    match answer {
        None => {
            proof {
                lemma_uses_at(s@, f.start as int);
            }
            push_range(out, s, f.start, f.end());
            assert(change_views(changes@) =~= change_views(old(changes)@) + seq![]);
        },
        Some((latest, sha)) => {
            if frozen {
                replace_frozen(s, f, latest, sha, out, changes);
            } else {
                replace_floating(s, f, latest, out, changes);
            }
        },
    }
}

} // verus!
