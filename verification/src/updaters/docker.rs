//! Dockerfile `FROM` image tags: the newest tag on the current tag's line
//! replaces the current one; under freeze the `@sha256:…` digest is appended.

use vstd::prelude::*;

use crate::context::{Ecosystem, RunCtx};
use crate::registry::{
    best_name, best_tag, digest_of, ghcr_names, image_repo, json_array, json_get, json_str, opt_view,
    JsonValue, Registry,
};
use crate::report::{change_views, Change, ChangeKind, ChangeView, Status};
use crate::scan::{
    class_has, class_run, class_run_len, in_class, lemma_class_run, lemma_nonspace_run,
    lemma_space_run, nonspace_run, nonspace_run_len, push_range, push_str, space_run,
    space_run_len, ALNUM, ALNUM_DOT_DASH, ALNUM_DOT_SLASH_DASH, BLANK, LOWER_HEX,
};
use crate::text::{chars_of, concat, matches_at, occurs_at, string_of};
use crate::updaters::{
    batch_outcome, batch_status, copy_strings, detect_files, detected_files, extend_changes, strings_view, touches_repo,
    warned_view, Detection, Event, OutcomeView, Step, StepView, UpdateOutcome, Updater,
};

verus! {

/// Where one `FROM image:tag[@digest] [AS stage]` line sits in a Dockerfile.
pub struct FromSpan {
    /// The `F` of `FROM`.
    pub start: int,
    /// First character of the image.
    pub image: int,
    /// The `:` before the tag.
    pub colon: int,
    /// End of the tag.
    pub tag_end: int,
    /// End of the `@sha256:…` digest (equal to `tag_end` when there is none).
    pub digest_end: int,
    /// End of the ` AS stage` suffix (equal to `digest_end` when there is none).
    pub suffix_end: int,
    /// End of the match (after trailing blanks).
    pub end: int,
}

pub open spec fn from_keyword() -> Seq<char> {
    seq!['F', 'R', 'O', 'M']
}

pub open spec fn sha256_marker() -> Seq<char> {
    seq!['@', 's', 'h', 'a', '2', '5', '6', ':']
}

/// `[ \t]*$` (multi-line) holds at `p`: blanks, then a line end.
pub open spec fn line_tail_ok(s: Seq<char>, p: int) -> bool {
    let b = p + class_run(s, p, BLANK);
    b == s.len() || s[b] == '\n'
}

/// End of the `\s+[Aa][Ss]\s+\S+` suffix at `p`, if it is there.
pub open spec fn stage_suffix(s: Seq<char>, p: int) -> Option<int> {
    let g = p + space_run(s, p);
    let r = g + 2 + space_run(s, g + 2);
    let t = r + nonspace_run(s, r);
    if g > p && g < s.len() && g + 1 < s.len() && (s[g] == 'A' || s[g] == 'a') && (s[g + 1] == 'S' || s[g + 1]
        == 's') && r > g + 2 && t > r {
        Some(t)
    } else {
        None
    }
}

/// The line that the pattern
/// `(?m)^(FROM\s+)([A-Za-z0-9][A-Za-z0-9._/-]*):([A-Za-z0-9._-]+)(@sha256:[0-9a-f]+)?(\s+[Aa][Ss]\s+\S+)?[ \t]*$`
/// matches at position `i`, if any.
pub open spec fn from_at(s: Seq<char>, i: int) -> Option<FromSpan> {
    let o = i + 4 + space_run(s, i + 4);
    let c = o + 1 + class_run(s, o + 1, ALNUM_DOT_SLASH_DASH);
    let te = c + 1 + class_run(s, c + 1, ALNUM_DOT_DASH);
    let de = if occurs_at(s, sha256_marker(), te) && class_run(s, te + 8, LOWER_HEX) > 0 {
        te + 8 + class_run(s, te + 8, LOWER_HEX)
    } else {
        te
    };
    if 0 <= i && (i == 0 || s[i - 1] == '\n') && occurs_at(s, from_keyword(), i) && o > i + 4 && o
        < s.len() && in_class(s[o], ALNUM) && c < s.len() && s[c] == ':' && class_run(
        s,
        c + 1,
        ALNUM_DOT_DASH,
    ) > 0 {
        match stage_suffix(s, de) {
            Some(t) if line_tail_ok(s, t) => Some(
                FromSpan {
                    start: i,
                    image: o,
                    colon: c,
                    tag_end: te,
                    digest_end: de,
                    suffix_end: t,
                    end: t + class_run(s, t, BLANK),
                },
            ),
            _ => if line_tail_ok(s, de) {
                Some(
                    FromSpan {
                        start: i,
                        image: o,
                        colon: c,
                        tag_end: te,
                        digest_end: de,
                        suffix_end: de,
                        end: de + class_run(s, de, BLANK),
                    },
                )
            } else {
                None
            },
        }
    } else {
        None
    }
}

/// The leftmost `FROM` line at or after `i`.
pub open spec fn next_from(s: Seq<char>, i: int) -> Option<FromSpan>
    decreases s.len() - i,
{
    if i < 0 || i >= s.len() {
        None
    } else if from_at(s, i) is Some {
        from_at(s, i)
    } else {
        next_from(s, i + 1)
    }
}

pub proof fn lemma_from_at(s: Seq<char>, i: int)
    requires
        from_at(s, i) is Some,
    ensures
        ({
            let m = from_at(s, i)->0;
            &&& m.start == i
            &&& 0 <= i < i + 4 < m.image < m.colon < m.tag_end <= m.digest_end <= m.suffix_end
                <= m.end <= s.len()
        }),
{
    let m = from_at(s, i)->0;
    lemma_space_run(s, i + 4);
    lemma_class_run(s, m.image + 1, ALNUM_DOT_SLASH_DASH);
    lemma_class_run(s, m.colon + 1, ALNUM_DOT_DASH);
    let te = m.tag_end;
    if occurs_at(s, sha256_marker(), te) {
        lemma_class_run(s, te + 8, LOWER_HEX);
    }
    let de = m.digest_end;
    lemma_space_run(s, de);
    let g = de + space_run(s, de);
    if g + 2 <= s.len() {
        lemma_space_run(s, g + 2);
        let r = g + 2 + space_run(s, g + 2);
        lemma_nonspace_run(s, r);
    }
    lemma_class_run(s, m.suffix_end, BLANK);
}

pub proof fn lemma_next_from(s: Seq<char>, i: int)
    requires
        0 <= i,
    ensures
        next_from(s, i) matches Some(m) ==> i <= m.start && from_at(s, m.start) == Some(m),
    decreases s.len() - i,
{
    if i < s.len() && from_at(s, i) is None {
        lemma_next_from(s, i + 1);
    }
}

/// Position after the first `k` `FROM` lines (or where the scan stopped).
pub open spec fn from_pos(s: Seq<char>, k: nat) -> int
    decreases k,
{
    if k == 0 {
        0
    } else {
        let p = from_pos(s, (k - 1) as nat);
        match next_from(s, p) {
            Some(m) => m.end,
            None => p,
        }
    }
}

/// The `k`-th `FROM` line (counting from 0).
pub open spec fn from_nth(s: Seq<char>, k: nat) -> Option<FromSpan> {
    next_from(s, from_pos(s, k))
}

/// Whether the text holds exactly `n` matched `FROM` lines.
pub open spec fn has_n_from_lines(s: Seq<char>, n: nat) -> bool {
    &&& forall|k: nat| k < n ==> #[trigger] from_nth(s, k) is Some
    &&& from_nth(s, n) is None
}

/// The image of a `FROM` line.
pub open spec fn image_of(s: Seq<char>, m: FromSpan) -> Seq<char> {
    s.subrange(m.image, m.colon)
}

/// The tag of a `FROM` line.
pub open spec fn tag_of(s: Seq<char>, m: FromSpan) -> Seq<char> {
    s.subrange(m.colon + 1, m.tag_end)
}

/// What replaces line `m` when the resolver answered `ans` (the new tag and,
/// possibly, its digest), and the change it records.
pub open spec fn from_replacement(
    s: Seq<char>,
    m: FromSpan,
    frozen: bool,
    ans: Option<(Seq<char>, Option<Seq<char>>)>,
) -> (Seq<char>, Seq<ChangeView>) {
    let whole = s.subrange(m.start, m.end);
    match ans {
        None => (whole, seq![]),
        Some((new_tag, digest)) => {
            let tag = tag_of(s, m);
            let old_digest = s.subrange(m.tag_end, m.digest_end);
            let digest_part = if frozen {
                match digest {
                    Some(d) => seq!['@'] + d,
                    None => seq![],
                }
            } else {
                seq![]
            };
            if new_tag == tag && digest_part == old_digest {
                (whole, seq![])
            } else {
                (
                    s.subrange(m.start, m.image) + image_of(s, m) + seq![':'] + new_tag + digest_part
                        + s.subrange(m.digest_end, m.suffix_end),
                    seq![
                        ChangeView {
                            name: image_of(s, m),
                            from: tag + old_digest,
                            to: new_tag + digest_part,
                            kind: ChangeKind::Image,
                        },
                    ],
                )
            }
        },
    }
}

/// Output and changes after the first `ans.len()` lines.
pub open spec fn from_done(
    s: Seq<char>,
    frozen: bool,
    ans: Seq<Option<(Seq<char>, Option<Seq<char>>)>>,
) -> (Seq<char>, Seq<ChangeView>)
    decreases ans.len(),
{
    if ans.len() == 0 {
        (seq![], seq![])
    } else {
        let k = (ans.len() - 1) as nat;
        let prev = from_done(s, frozen, ans.drop_last());
        let p = from_pos(s, k);
        match next_from(s, p) {
            Some(m) => {
                let rep = from_replacement(s, m, frozen, ans.last());
                (prev.0 + s.subrange(p, m.start) + rep.0, prev.1 + rep.1)
            },
            None => prev,
        }
    }
}

/// The rewritten Dockerfile and the changes, the `k`-th line resolved to `ans[k]`.
pub open spec fn from_rewrite_of(
    s: Seq<char>,
    frozen: bool,
    ans: Seq<Option<(Seq<char>, Option<Seq<char>>)>>,
) -> (Seq<char>, Seq<ChangeView>) {
    let d = from_done(s, frozen, ans);
    (d.0 + s.subrange(from_pos(s, ans.len()), s.len() as int), d.1)
}

/// The view of a resolver answer.
pub open spec fn image_answer_view(a: Option<(String, Option<String>)>) -> Option<
    (Seq<char>, Option<Seq<char>>),
> {
    match a {
        Some((t, d)) => Some(
            (
                t@,
                match d {
                    Some(x) => Some(x@),
                    None => None,
                },
            ),
        ),
        None => None,
    }
}

/// `resolve` may answer `a` when asked about `image`:`tag`.
pub open spec fn image_resolved_by<F: Fn(&str, &str) -> Option<(String, Option<String>)>>(
    resolve: F,
    image: Seq<char>,
    tag: Seq<char>,
    a: Option<(Seq<char>, Option<Seq<char>>)>,
) -> bool {
    exists|x: &str, y: &str, out: Option<(String, Option<String>)>|
        #[trigger] call_ensures(resolve, (x, y), out) && x@ == image && y@ == tag
            && image_answer_view(out) == a
}

pub proof fn lemma_from_pos(s: Seq<char>, k: nat)
    ensures
        0 <= from_pos(s, k) <= s.len(),
        from_nth(s, k) matches Some(m) ==> from_pos(s, k) <= m.start && m.start < m.end <= s.len(),
    decreases k,
{
    if k > 0 {
        lemma_from_pos(s, (k - 1) as nat);
        let p = from_pos(s, (k - 1) as nat);
        lemma_next_from(s, p);
        if let Some(m) = next_from(s, p) {
            lemma_from_at(s, m.start);
        }
    }
    lemma_next_from(s, from_pos(s, k));
    if let Some(m) = from_nth(s, k) {
        lemma_from_at(s, m.start);
    }
}

proof fn lemma_kept_lines_prefix(
    s: Seq<char>,
    frozen: bool,
    ans: Seq<Option<(Seq<char>, Option<Seq<char>>)>>,
)
    requires
        forall|k: nat| k < ans.len() ==> #[trigger] from_nth(s, k) is Some,
        forall|k: nat|
            k < ans.len() ==> from_replacement(s, from_nth(s, k)->0, frozen, #[trigger] ans[k as int])
                == (s.subrange(from_nth(s, k)->0.start, from_nth(s, k)->0.end), Seq::<ChangeView>::empty()),
    ensures
        from_done(s, frozen, ans) == (s.subrange(0, from_pos(s, ans.len())), Seq::<ChangeView>::empty()),
    decreases ans.len(),
{
    if ans.len() > 0 {
        let k = (ans.len() - 1) as nat;
        let prev = ans.drop_last();
        assert forall|j: nat| j < prev.len() implies #[trigger] from_nth(s, j) is Some by {
            assert(from_nth(s, j) is Some);
        }
        assert forall|j: nat|
            j < prev.len() implies from_replacement(s, from_nth(s, j)->0, frozen, #[trigger] prev[j as int])
            == (s.subrange(from_nth(s, j)->0.start, from_nth(s, j)->0.end), Seq::<ChangeView>::empty()) by {
            assert(prev[j as int] == ans[j as int]);
        }
        lemma_kept_lines_prefix(s, frozen, prev);
        lemma_from_pos(s, k);
        assert(from_nth(s, k) is Some);
        assert(ans.last() == ans[k as int]);
        let p = from_pos(s, k);
        let m = from_nth(s, k)->0;
        assert(s.subrange(0, p) + s.subrange(p, m.start) + s.subrange(m.start, m.end) =~= s.subrange(
            0,
            m.end,
        ));
    }
}

/// Lines that every answer leaves alone leave the Dockerfile alone: when each
/// line's replacement is the line itself, the rewrite returns the text
/// unchanged and records no change.
pub proof fn law_kept_lines_keep_text(
    s: Seq<char>,
    frozen: bool,
    ans: Seq<Option<(Seq<char>, Option<Seq<char>>)>>,
)
    requires
        has_n_from_lines(s, ans.len()),
        forall|k: nat|
            k < ans.len() ==> from_replacement(s, from_nth(s, k)->0, frozen, #[trigger] ans[k as int])
                == (s.subrange(from_nth(s, k)->0.start, from_nth(s, k)->0.end), Seq::<ChangeView>::empty()),
    ensures
        from_rewrite_of(s, frozen, ans) == (s, Seq::<ChangeView>::empty()),
{
    lemma_kept_lines_prefix(s, frozen, ans);
    lemma_from_pos(s, ans.len());
    assert(s.subrange(0, from_pos(s, ans.len())) + s.subrange(from_pos(s, ans.len()), s.len() as int)
        =~= s);
}

/// Under freeze, a `FROM` line whose resolver answer carries a digest `d`
/// that the line does not already pin as `@d` is rewritten to
/// `image:<new tag>@d`, keeping its stage suffix, and records exactly one
/// change, also when the tag itself did not move. The text before the line is
/// copied unchanged.
pub proof fn law_frozen_images_pinned_to_digest(
    s: Seq<char>,
    ans: Seq<Option<(Seq<char>, Option<Seq<char>>)>>,
    new_tag: Seq<char>,
    d: Seq<char>,
)
    requires
        ans.len() > 0,
        ans.last() == Some((new_tag, Some(d))),
        from_nth(s, (ans.len() - 1) as nat) matches Some(m) && s.subrange(m.tag_end, m.digest_end)
            != seq!['@'] + d,
    ensures
        ({
            let k = (ans.len() - 1) as nat;
            let m = from_nth(s, k)->0;
            let prev = from_done(s, true, ans.drop_last());
            from_done(s, true, ans) == (
                prev.0 + s.subrange(from_pos(s, k), m.image) + image_of(s, m) + seq![':'] + new_tag
                    + seq!['@'] + d + s.subrange(m.digest_end, m.suffix_end),
                prev.1.push(
                    ChangeView {
                        name: image_of(s, m),
                        from: tag_of(s, m) + s.subrange(m.tag_end, m.digest_end),
                        to: new_tag + seq!['@'] + d,
                        kind: ChangeKind::Image,
                    },
                ),
            )
        }),
{
    let k = (ans.len() - 1) as nat;
    let m = from_nth(s, k)->0;
    let p = from_pos(s, k);
    lemma_from_pos(s, k);
    lemma_next_from(s, p);
    lemma_from_at(s, m.start);
    assert(s.subrange(p, m.start) + s.subrange(m.start, m.image) =~= s.subrange(p, m.image));
    let prev = from_done(s, true, ans.drop_last());
    let rep = from_replacement(s, m, true, ans.last());
    let c = ChangeView {
        name: image_of(s, m),
        from: tag_of(s, m) + s.subrange(m.tag_end, m.digest_end),
        to: new_tag + seq!['@'] + d,
        kind: ChangeKind::Image,
    };
    assert(new_tag + (seq!['@'] + d) =~= new_tag + seq!['@'] + d);
    assert(rep.1 =~= seq![c]);
    assert(prev.1 + rep.1 =~= prev.1.push(c));
    assert(prev.0 + s.subrange(p, m.start) + rep.0 =~= prev.0 + s.subrange(p, m.image) + image_of(s, m)
        + seq![':'] + new_tag + seq!['@'] + d + s.subrange(m.digest_end, m.suffix_end));
}

/// Without freeze, a `FROM` line whose resolver answer names a tag other
/// than its own is rewritten to `image:<new tag>` (no digest), keeping its
/// stage suffix, and records exactly one change.
pub proof fn law_moved_tags_rewritten(
    s: Seq<char>,
    ans: Seq<Option<(Seq<char>, Option<Seq<char>>)>>,
    new_tag: Seq<char>,
    digest: Option<Seq<char>>,
)
    requires
        ans.len() > 0,
        ans.last() == Some((new_tag, digest)),
        from_nth(s, (ans.len() - 1) as nat) matches Some(m) && new_tag != tag_of(s, m),
    ensures
        ({
            let k = (ans.len() - 1) as nat;
            let m = from_nth(s, k)->0;
            let prev = from_done(s, false, ans.drop_last());
            from_done(s, false, ans) == (
                prev.0 + s.subrange(from_pos(s, k), m.image) + image_of(s, m) + seq![':'] + new_tag
                    + s.subrange(m.digest_end, m.suffix_end),
                prev.1.push(
                    ChangeView {
                        name: image_of(s, m),
                        from: tag_of(s, m) + s.subrange(m.tag_end, m.digest_end),
                        to: new_tag,
                        kind: ChangeKind::Image,
                    },
                ),
            )
        }),
{
    let k = (ans.len() - 1) as nat;
    let m = from_nth(s, k)->0;
    let p = from_pos(s, k);
    lemma_from_pos(s, k);
    lemma_next_from(s, p);
    lemma_from_at(s, m.start);
    assert(s.subrange(p, m.start) + s.subrange(m.start, m.image) =~= s.subrange(p, m.image));
    let prev = from_done(s, false, ans.drop_last());
    let rep = from_replacement(s, m, false, ans.last());
    let c = ChangeView {
        name: image_of(s, m),
        from: tag_of(s, m) + s.subrange(m.tag_end, m.digest_end),
        to: new_tag,
        kind: ChangeKind::Image,
    };
    assert(new_tag + Seq::<char>::empty() =~= new_tag);
    assert(rep.1 =~= seq![c]);
    assert(prev.1 + rep.1 =~= prev.1.push(c));
    assert(prev.0 + s.subrange(p, m.start) + rep.0 =~= prev.0 + s.subrange(p, m.image) + image_of(s, m)
        + seq![':'] + new_tag + s.subrange(m.digest_end, m.suffix_end));
}

/// Unresolvable `FROM` lines are left untouched: if every answer is `None`,
/// the Dockerfile comes back unchanged with no change recorded.
pub proof fn law_unresolved_lines_untouched(
    s: Seq<char>,
    frozen: bool,
    ans: Seq<Option<(Seq<char>, Option<Seq<char>>)>>,
)
    requires
        has_n_from_lines(s, ans.len()),
        forall|k: int| 0 <= k < ans.len() ==> #[trigger] ans[k] is None,
    ensures
        from_rewrite_of(s, frozen, ans) == (s, Seq::<ChangeView>::empty()),
{
    assert forall|k: nat|
        k < ans.len() implies from_replacement(s, from_nth(s, k)->0, frozen, #[trigger] ans[k as int])
        == (s.subrange(from_nth(s, k)->0.start, from_nth(s, k)->0.end), Seq::<ChangeView>::empty()) by {
        assert(ans[k as int] is None);
    }
    law_kept_lines_keep_text(s, frozen, ans);
}

/// A digest is written only under freeze: in plain mode every recorded change
/// moves the image to exactly the tag the resolver answered, with no digest.
pub proof fn law_digest_only_when_frozen(
    s: Seq<char>,
    m: FromSpan,
    new_tag: Seq<char>,
    digest: Option<Seq<char>>,
)
    ensures
        from_replacement(s, m, false, Some((new_tag, digest))).1.len() == 1 ==> from_replacement(
            s,
            m,
            false,
            Some((new_tag, digest)),
        ).1[0].to == new_tag,
{
    assert(new_tag + Seq::<char>::empty() =~= new_tag);
}


// ---------------------------------------------------------------------------
// The run
// ---------------------------------------------------------------------------

/// The Dockerfile updater.
pub struct Docker;

impl Updater for Docker {
    fn ecosystem(&self) -> (e: Ecosystem)
        ensures
            e == Ecosystem::Docker,
    {
        Ecosystem::Docker
    }
}

impl Docker {
    /// Present with the Dockerfiles found, absent when there are none.
    pub fn detect(&self, found: Vec<String>) -> (d: Detection)
        ensures
            detected_files(d, found@, "no Dockerfile"@),
    {
        detect_files(found, "no Dockerfile")
    }
}

/// The registry host part of an image name: its first `/`-separated segment
/// names a host when it holds a `.` or a `:`.
pub open spec fn host_prefixed(image: Seq<char>) -> bool {
    let first = match first_index_of(image, '/') {
        Some(k) => image.subrange(0, k),
        None => image,
    };
    first.contains('.') || first.contains(':')
}

/// Index of the first `c` in `s`.
pub open spec fn first_index_of(s: Seq<char>, c: char) -> Option<int>
    decreases s.len(),
{
    if s.len() == 0 {
        None
    } else if s[0] == c {
        Some(0)
    } else {
        match first_index_of(s.drop_first(), c) {
            Some(k) => Some(k + 1),
            None => None,
        }
    }
}

/// How an image pin resolves against Docker Hub answers: `tags_doc` is the
/// tag list fetched for the image, `tag_doc` the details fetched for the new
/// tag (consulted only under freeze).
pub open spec fn resolution_of(
    image: Seq<char>,
    tag: Seq<char>,
    frozen: bool,
    tags_doc: Option<JsonValue>,
    tag_doc: Option<JsonValue>,
) -> Option<(Seq<char>, Option<Seq<char>>)> {
    if host_prefixed(image) {
        None
    } else {
        match tags_doc {
            None => None,
            Some(d) => match json_array(json_get(d, "results"@)) {
                None => None,
                Some(tags) => match best_tag(tags, tag) {
                    None => None,
                    Some(t) => Some(
                        (
                            t,
                            if frozen {
                                match tag_doc {
                                    Some(dd) => digest_of(dd),
                                    None => None,
                                }
                            } else {
                                None
                            },
                        ),
                    ),
                },
            },
        }
    }
}

impl Docker {
    /// Resolves `image:tag` on Docker Hub through `fetch`, which answers a
    /// URL with its parsed JSON document (`None` on any failure): the newest
    /// tag on the pin's line, and under freeze its manifest digest. Images
    /// that name a registry host are not resolved here.
    pub fn resolve_hub<F: Fn(&str) -> Option<JsonValue>>(
        reg: &Registry,
        fetch: &F,
        image: &str,
        tag: &str,
        frozen: bool,
    ) -> (r: Option<(String, Option<String>)>)
        requires
            forall|u: &str| call_requires(*fetch, (u,)),
        ensures
            host_prefixed(image@) ==> r is None,
            !host_prefixed(image@) ==> exists|u: &str, tags_doc: Option<JsonValue>|
                {
                    &&& u@ == reg.docker_base@ + "/v2/repositories/"@ + image_repo(image@)
                        + "/tags?page_size=100&ordering=last_updated"@
                    &&& call_ensures(*fetch, (u,), tags_doc)
                    &&& match r {
                        None => resolution_of(image@, tag@, frozen, tags_doc, None) is None,
                        Some((t, d)) => exists|w: &str, tag_doc: Option<JsonValue>|
                            {
                                &&& resolution_of(image@, tag@, frozen, tags_doc, tag_doc)
                                    == Some((t@, opt_view(d)))
                                &&& frozen ==> w@ == reg.docker_base@ + "/v2/repositories/"@
                                    + image_repo(image@) + "/tags/"@ + t@ && call_ensures(
                                    *fetch,
                                    (w,),
                                    tag_doc,
                                )
                            },
                    }
                },
    {
        if !Docker::resolvable(image) {
            return None;
        }
        let url = reg.docker_tags_url(image);
        let tags_doc = fetch(url.as_str());
        let new_tag = match &tags_doc {
            Some(d) => Registry::latest_docker_tag(d, tag),
            None => None,
        };
        let t = match new_tag {
            Some(t) => t,
            None => {
                return None;
            },
        };
        if frozen {
            let w = reg.docker_tag_url(image, t.as_str());
            let tag_doc = fetch(w.as_str());
            let digest = match &tag_doc {
                Some(d) => Registry::docker_digest(d),
                None => None,
            };
            assert(resolution_of(image@, tag@, frozen, tags_doc, tag_doc) == Some(
                (t@, opt_view(digest)),
            ));
            Some((t, digest))
        } else {
            let ghost none_doc: Option<JsonValue> = None;
            assert(resolution_of(image@, tag@, frozen, tags_doc, none_doc) == Some(
                (t@, opt_view(None::<String>)),
            ));
            Some((t, None))
        }
    }
}

/// The repository path of a GHCR image (`ghcr.io/owner/name` gives
/// `owner/name`); `None` for an image elsewhere.
pub open spec fn ghcr_path(image: Seq<char>) -> Option<Seq<char>> {
    match first_index_of(image, '/') {
        Some(k) => if image.subrange(0, k) == "ghcr.io"@ {
            Some(image.subrange(k + 1, image.len() as int))
        } else {
            None
        },
        None => None,
    }
}

/// The token in a GHCR token answer.
pub open spec fn token_in(doc: Option<JsonValue>) -> Option<Seq<char>> {
    match doc {
        Some(d) => json_str(json_get(d, "token"@)),
        None => None,
    }
}

/// The newest tag on `current`'s line in a GHCR tag-list answer.
pub open spec fn ghcr_best(doc: Option<JsonValue>, current: Seq<char>) -> Option<Seq<char>> {
    match doc {
        Some(d) => match json_array(json_get(d, "tags"@)) {
            Some(tags) => best_name(ghcr_names(tags), current),
            None => None,
        },
        None => None,
    }
}

/// `first_index_of` is the position of a `c` with none before it.
proof fn lemma_first_index_at(s: Seq<char>, c: char, i: int)
    requires
        0 <= i <= s.len(),
        forall|j: int| 0 <= j < i ==> s[j] != c,
        i == s.len() || s[i] == c,
    ensures
        first_index_of(s, c) == (if i == s.len() {
            None::<int>
        } else {
            Some(i)
        }),
    decreases i,
{
    if i > 0 {
        assert forall|j: int| 0 <= j < i - 1 implies s.drop_first()[j] != c by {
            assert(s.drop_first()[j] == s[j + 1]);
        }
        lemma_first_index_at(s.drop_first(), c, i - 1);
    }
}

/// The repository path of a GHCR image (exec).
fn ghcr_repo_path(image: &str) -> (r: Option<String>)
    ensures
        match r {
            Some(p) => ghcr_path(image@) == Some(p@),
            None => ghcr_path(image@) is None,
        },
{
    let v = chars_of(image);
    let mut i: usize = 0;
    while i < v.len() && v[i] != '/'
        invariant
            i <= v@.len(),
            v@ == image@,
            forall|j: int| 0 <= j < i ==> v@[j] != '/',
        decreases v@.len() - i,
    {
        i = i + 1;
    }
    proof {
        lemma_first_index_at(v@, '/', i as int);
    }
    if i == v.len() {
        return None;
    }
    let mut head: Vec<char> = Vec::new();
    push_range(&mut head, v.as_slice(), 0, i);
    if string_of(head.as_slice()) != "ghcr.io".to_owned() {
        return None;
    }
    let mut rest: Vec<char> = Vec::new();
    push_range(&mut rest, v.as_slice(), i + 1, v.len());
    assert(head@ =~= v@.subrange(0, i as int));
    assert(rest@ =~= v@.subrange(i + 1, v@.len() as int));
    Some(string_of(rest.as_slice()))
}

impl Docker {
    /// Resolves a GHCR image: an anonymous pull token from `fetch`, then the
    /// tag list from `fetch_auth` with that token, and under freeze the
    /// manifest digest from `digest_auth` (the digest header GHCR answers a
    /// manifest request with).
    pub fn resolve_ghcr<
        F: Fn(&str) -> Option<JsonValue>,
        A: Fn(&str, &str) -> Option<JsonValue>,
        D: Fn(&str, &str) -> Option<String>,
    >(
        reg: &Registry,
        fetch: &F,
        fetch_auth: &A,
        digest_auth: &D,
        path: &str,
        tag: &str,
        frozen: bool,
    ) -> (r: Option<(String, Option<String>)>)
        requires
            forall|u: &str| call_requires(*fetch, (u,)),
            forall|u: &str, k: &str| call_requires(*fetch_auth, (u, k)),
            forall|u: &str, k: &str| call_requires(*digest_auth, (u, k)),
        ensures
            exists|u: &str, tok_doc: Option<JsonValue>|
                {
                    &&& u@ == reg.ghcr_base@ + "/token?scope=repository:"@ + path@ + ":pull"@
                    &&& call_ensures(*fetch, (u,), tok_doc)
                    &&& match token_in(tok_doc) {
                        None => r is None,
                        Some(tok) => exists|v: &str, k: &str, tags_doc: Option<JsonValue>|
                            {
                                &&& v@ == reg.ghcr_base@ + "/v2/"@ + path@ + "/tags/list"@
                                &&& k@ == tok
                                &&& call_ensures(*fetch_auth, (v, k), tags_doc)
                                &&& match r {
                                    None => ghcr_best(tags_doc, tag@) is None,
                                    Some((t, d)) => {
                                        &&& ghcr_best(tags_doc, tag@) == Some(t@)
                                        &&& !frozen ==> d is None
                                        &&& frozen ==> exists|w: &str, k2: &str|
                                            w@ == reg.ghcr_base@ + "/v2/"@ + path@ + "/manifests/"@
                                                + t@ && k2@ == tok && call_ensures(
                                                *digest_auth,
                                                (w, k2),
                                                d,
                                            )
                                    },
                                }
                            },
                    }
                },
    {
        let u = reg.ghcr_token_url(path);
        let tok_doc = fetch(u.as_str());
        let tok = match &tok_doc {
            Some(d) => Registry::token(d),
            None => None,
        };
        let tok = match tok {
            Some(t) => t,
            None => {
                return None;
            },
        };
        let v = reg.ghcr_tags_url(path);
        let tags_doc = fetch_auth(v.as_str(), tok.as_str());
        let t = match &tags_doc {
            Some(d) => Registry::latest_ghcr_tag(d, tag),
            None => None,
        };
        let t = match t {
            Some(t) => t,
            None => {
                return None;
            },
        };
        if frozen {
            let w = reg.ghcr_manifest_url(path, t.as_str());
            let d = digest_auth(w.as_str(), tok.as_str());
            Some((t, d))
        } else {
            Some((t, None))
        }
    }

    /// Resolves `image:tag` on its registry: Docker Hub for an image with no
    /// registry host, GHCR for a `ghcr.io/…` image; images on any other
    /// registry are not resolved.
    pub fn resolve<
        F: Fn(&str) -> Option<JsonValue>,
        A: Fn(&str, &str) -> Option<JsonValue>,
        D: Fn(&str, &str) -> Option<String>,
    >(
        reg: &Registry,
        fetch: &F,
        fetch_auth: &A,
        digest_auth: &D,
        image: &str,
        tag: &str,
        frozen: bool,
    ) -> (r: Option<(String, Option<String>)>)
        requires
            forall|u: &str| call_requires(*fetch, (u,)),
            forall|u: &str, k: &str| call_requires(*fetch_auth, (u, k)),
            forall|u: &str, k: &str| call_requires(*digest_auth, (u, k)),
        ensures
            !host_prefixed(image@) ==> call_ensures(Docker::resolve_hub::<F>, (reg, fetch, image, tag, frozen), r),
            ghcr_path(image@) matches Some(path) ==> exists|p: &str| p@ == path && call_ensures(
                Docker::resolve_ghcr::<F, A, D>,
                (reg, fetch, fetch_auth, digest_auth, p, tag, frozen),
                r,
            ),
            host_prefixed(image@) && ghcr_path(image@) is None ==> r is None,
    {
        proof {
            reveal_strlit("ghcr.io");
            assert("ghcr.io"@[4] == '.');
            assert("ghcr.io"@.contains('.'));
        }
        if Docker::resolvable(image) {
            return Docker::resolve_hub(reg, fetch, image, tag, frozen);
        }
        match ghcr_repo_path(image) {
            Some(p) => {
                let ps = p.as_str();
                let r = Docker::resolve_ghcr(reg, fetch, fetch_auth, digest_auth, ps, tag, frozen);
                assert(call_ensures(
                    Docker::resolve_ghcr::<F, A, D>,
                    (reg, fetch, fetch_auth, digest_auth, ps, tag, frozen),
                    r,
                ));
                r
            },
            None => None,
        }
    }
}

/// A Dockerfile by name: `Dockerfile`, `Dockerfile.*` or `*.dockerfile`.
pub open spec fn dockerfile_name(name: Seq<char>) -> bool {
    ||| name == "Dockerfile"@
    ||| occurs_at(name, "Dockerfile."@, 0)
    ||| occurs_at(name, ".dockerfile"@, name.len() - ".dockerfile"@.len())
}

impl Docker {
    /// Whether a file called `name` is a Dockerfile.
    pub fn is_dockerfile(name: &str) -> (r: bool)
        ensures
            r == dockerfile_name(name@),
    {
        let v = chars_of(name);
        let exact = chars_of("Dockerfile");
        let lead = chars_of("Dockerfile.");
        let tail = chars_of(".dockerfile");
        if string_of(v.as_slice()) == string_of(exact.as_slice()) {
            return true;
        }
        if matches_at(v.as_slice(), lead.as_slice(), 0) {
            return true;
        }
        v.len() >= tail.len() && matches_at(v.as_slice(), tail.as_slice(), v.len() - tail.len())
    }
}

impl Docker {
    /// Only Docker Hub images (no registry host in the name) are resolved.
    pub fn resolvable(image: &str) -> (r: bool)
        ensures
            r == !host_prefixed(image@),
    {
        let v = chars_of(image);
        let mut i: usize = 0;
        let mut dot_or_colon = false;
        while i < v.len() && v[i] != '/'
            invariant
                i <= v@.len(),
                forall|j: int| 0 <= j < i ==> v@[j] != '/',
                dot_or_colon == (v@.subrange(0, i as int).contains('.') || v@.subrange(
                    0,
                    i as int,
                ).contains(':')),
            decreases v@.len() - i,
        {
            if v[i] == '.' || v[i] == ':' {
                dot_or_colon = true;
                assert(v@.subrange(0, i + 1)[i as int] == v@[i as int]);
            }
            proof {
                let a = v@.subrange(0, i as int);
                let b = v@.subrange(0, i + 1);
                assert(b =~= a.push(v@[i as int]));
            }
            i = i + 1;
        }
        proof {
            lemma_first_index(v@, '/', i as int);
            if i == v@.len() {
                assert(v@.subrange(0, i as int) =~= v@);
            }
        }
        !dot_or_colon
    }
}

proof fn lemma_first_index(s: Seq<char>, c: char, i: int)
    requires
        0 <= i <= s.len(),
        forall|j: int| 0 <= j < i ==> s[j] != c,
        i == s.len() || s[i] == c,
    ensures
        first_index_of(s, c) == (if i == s.len() {
            None::<int>
        } else {
            Some(i)
        }),
    decreases i,
{
    if i > 0 {
        lemma_first_index(s.drop_first(), c, i - 1);
    }
}

/// Where a Docker run stands.
#[derive(Clone, Copy, PartialEq, Eq, Structural)]
pub enum DockerPhase {
    AwaitRewrite,
    AwaitWrite,
    Finished,
}

/// A Docker run in progress over the Dockerfiles `targets`.
pub struct DockerRun {
    pub phase: DockerPhase,
    pub dry_run: bool,
    pub frozen: bool,
    pub targets: Vec<String>,
    /// The Dockerfile being handled.
    pub next: usize,
    /// Changes of the files already handled (and written, unless a dry run).
    pub changes: Vec<Change>,
    /// Changes of the file being written.
    pub pending: Vec<Change>,
    pub errors: Vec<String>,
}

impl DockerRun {
    pub open spec fn wf(self) -> bool {
        &&& self.next <= self.targets.len()
        &&& self.phase != DockerPhase::Finished ==> self.next < self.targets.len()
        &&& self.phase == DockerPhase::AwaitWrite ==> !self.dry_run
    }

    /// The step once the files before `next` are handled with changes `cv`
    /// and errors `errs`.
    pub open spec fn advance_at(self, next: int, cv: Seq<ChangeView>, errs: Seq<Seq<char>>) -> StepView {
        if next < self.targets@.len() {
            StepView::Rewrite(self.targets@[next]@, self.frozen)
        } else {
            StepView::Done(batch_outcome(cv, errs, self.dry_run))
        }
    }

    /// How many steps the run may still take.
    pub open spec fn rank(self) -> nat {
        let files = (self.targets@.len() - self.next) as nat;
        match self.phase {
            DockerPhase::AwaitRewrite => 2 * files,
            DockerPhase::AwaitWrite => (2 * files - 1) as nat,
            DockerPhase::Finished => 0,
        }
    }

    /// Asks for the next file, or finishes.
    fn go_on(&mut self) -> (r: Step)
        requires
            old(self).next <= old(self).targets.len(),
        ensures
            r@ == old(self).advance_at(
                old(self).next as int,
                change_views(old(self).changes@),
                strings_view(old(self).errors@),
            ),
            final(self).next == old(self).next,
            final(self).targets@ == old(self).targets@,
            final(self).dry_run == old(self).dry_run,
            final(self).frozen == old(self).frozen,
            old(self).next < old(self).targets@.len() ==> final(self).changes@ == old(self).changes@
                && final(self).errors@ == old(self).errors@ && final(self).phase
                == DockerPhase::AwaitRewrite,
            old(self).next >= old(self).targets@.len() ==> final(self).phase == DockerPhase::Finished
                && final(self).changes@.len() == 0 && final(self).errors@.len() == 0,
    {
        if self.next < self.targets.len() {
            self.phase = DockerPhase::AwaitRewrite;
            Step::Rewrite(self.targets[self.next].clone(), self.frozen)
        } else {
            self.phase = DockerPhase::Finished;
            let mut changes = Vec::new();
            std::mem::swap(&mut changes, &mut self.changes);
            let mut errors = Vec::new();
            std::mem::swap(&mut errors, &mut self.errors);
            let status = if errors.len() > 0 {
                Status::Errored
            } else if changes.len() == 0 {
                Status::UpToDate
            } else if self.dry_run {
                Status::WouldChange
            } else {
                Status::Applied
            };
            let out = UpdateOutcome {
                status,
                changes,
                warnings: Vec::new(),
                errors,
                held_back: Vec::new(),
            };
            assert(out@.warnings =~= seq![]);
            Step::Done(out)
        }
    }

    /// Answers the last step and returns the next one.
    pub fn step(&mut self, ev: Event) -> (r: Step)
        requires
            old(self).wf(),
            old(self).phase != DockerPhase::Finished,
            old(self).phase == DockerPhase::AwaitRewrite ==> ev is Rewritten || ev is Unreadable,
            old(self).phase == DockerPhase::AwaitWrite ==> ev is Wrote,
        ensures
            final(self).wf(),
            final(self).dry_run == old(self).dry_run,
            final(self).frozen == old(self).frozen,
            final(self).targets@ == old(self).targets@,
            final(self).rank() < old(self).rank(),
            (r is Done) == (final(self).phase == DockerPhase::Finished),
            final(self).phase == DockerPhase::AwaitRewrite ==> r is Rewrite,
            final(self).phase == DockerPhase::AwaitWrite ==> r is Write,
            old(self).dry_run ==> !touches_repo(r@),
            old(self).phase == DockerPhase::AwaitRewrite ==> match ev {
                Event::Unreadable => {
                    &&& final(self).next == old(self).next + 1
                    &&& r@ == old(self).advance_at(
                        old(self).next + 1,
                        change_views(old(self).changes@),
                        strings_view(old(self).errors@),
                    )
                    &&& final(self).phase != DockerPhase::Finished ==> {
                        &&& final(self).changes@ == old(self).changes@
                        &&& final(self).errors@ == old(self).errors@
                    }
                },
                Event::Rewritten(text, ch) => if ch@.len() > 0 && !old(self).dry_run {
                    &&& r@ == StepView::Write(old(self).targets@[old(self).next as int]@, text@)
                    &&& final(self).next == old(self).next
                    &&& final(self).pending@ == ch@
                    &&& final(self).changes@ == old(self).changes@
                    &&& final(self).errors@ == old(self).errors@
                } else {
                    &&& final(self).next == old(self).next + 1
                    &&& r@ == old(self).advance_at(
                        old(self).next + 1,
                        change_views(old(self).changes@) + change_views(ch@),
                        strings_view(old(self).errors@),
                    )
                    &&& final(self).phase != DockerPhase::Finished ==> {
                        &&& change_views(final(self).changes@) == change_views(old(self).changes@)
                            + change_views(ch@)
                        &&& final(self).errors@ == old(self).errors@
                    }
                },
                _ => true,
            },
            old(self).phase == DockerPhase::AwaitWrite ==> match ev {
                Event::Wrote(Ok(())) => {
                    &&& final(self).next == old(self).next + 1
                    &&& r@ == old(self).advance_at(
                        old(self).next + 1,
                        change_views(old(self).changes@) + change_views(old(self).pending@),
                        strings_view(old(self).errors@),
                    )
                    &&& final(self).phase != DockerPhase::Finished ==> {
                        &&& change_views(final(self).changes@) == change_views(old(self).changes@)
                            + change_views(old(self).pending@)
                        &&& final(self).errors@ == old(self).errors@
                    }
                },
                Event::Wrote(Err(e)) => {
                    &&& final(self).next == old(self).next + 1
                    &&& r@ == old(self).advance_at(
                        old(self).next + 1,
                        change_views(old(self).changes@),
                        strings_view(old(self).errors@).push(
                            "write "@ + old(self).targets@[old(self).next as int]@ + ": "@ + e@,
                        ),
                    )
                    &&& final(self).phase != DockerPhase::Finished ==> {
                        &&& final(self).changes@ == old(self).changes@
                        &&& strings_view(final(self).errors@) == strings_view(old(self).errors@).push(
                            "write "@ + old(self).targets@[old(self).next as int]@ + ": "@ + e@,
                        )
                    }
                },
                _ => true,
            },
    {
        match self.phase {
            DockerPhase::AwaitRewrite => {
                match ev {
                    Event::Rewritten(text, ch) => {
                        if ch.len() > 0 && !self.dry_run {
                            self.phase = DockerPhase::AwaitWrite;
                            self.pending = ch;
                            return Step::Write(self.targets[self.next].clone(), text);
                        }
                        extend_changes(&mut self.changes, ch);
                    },
                    _ => {},
                }
                self.next = self.next + 1;
                self.go_on()
            },
            _ => {
                let mut pending = Vec::new();
                std::mem::swap(&mut pending, &mut self.pending);
                match ev {
                    Event::Wrote(Err(e)) => {
                        let path = self.targets[self.next].clone();
                        let head = concat("write ", path.as_str());
                        let head = concat(head.as_str(), ": ");
                        let msg = concat(head.as_str(), e.as_str());
                        let ghost m = msg@;
                        let ghost before = strings_view(self.errors@);
                        self.errors.push(msg);
                        assert(strings_view(self.errors@) =~= before.push(m));
                    },
                    _ => {
                        extend_changes(&mut self.changes, pending);
                    },
                }
                self.next = self.next + 1;
                self.go_on()
            },
        }
    }
}

impl Docker {
    /// Starts a Docker run over the detected Dockerfiles.
    pub fn start(&self, ctx: &RunCtx, det: &Detection) -> (r: (DockerRun, Step))
        ensures
            r.0.wf(),
            r.0.dry_run == ctx.dry_run,
            r.0.frozen == ctx.freeze@.contains(Ecosystem::Docker),
            (r.1 is Done) == (r.0.phase == DockerPhase::Finished),
            r.0.phase == DockerPhase::AwaitRewrite ==> r.1 is Rewrite,
            det is Absent ==> r.1@ == StepView::Done(warned_view(Status::NotPresent, "no Dockerfile"@)),
            det matches Detection::Present { targets } ==> r.0.targets@ == targets@ && r.1@
                == r.0.advance_at(0, seq![], seq![]),
            det is Present ==> r.0.next == 0 && r.0.changes@.len() == 0 && r.0.errors@.len() == 0,
    {
        let frozen = ctx.is_frozen(Ecosystem::Docker);
        let mut run = DockerRun {
            phase: DockerPhase::Finished,
            dry_run: ctx.dry_run,
            frozen,
            targets: Vec::new(),
            next: 0,
            changes: Vec::new(),
            pending: Vec::new(),
            errors: Vec::new(),
        };
        match det {
            Detection::Absent { .. } => (run, Step::Done(UpdateOutcome::not_present("no Dockerfile"))),
            Detection::Present { targets } => {
                run.targets = copy_strings(targets);
                assert(change_views(run.changes@) =~= seq![]);
                assert(strings_view(run.errors@) =~= seq![]);
                let step = run.go_on();
                (run, step)
            },
        }
    }
}

/// Exec image of [`FromSpan`].
struct Found {
    start: usize,
    image: usize,
    colon: usize,
    tag_end: usize,
    digest_end: usize,
    suffix_end: usize,
    end: usize,
}

impl Found {
    spec fn span(self) -> FromSpan {
        FromSpan {
            start: self.start as int,
            image: self.image as int,
            colon: self.colon as int,
            tag_end: self.tag_end as int,
            digest_end: self.digest_end as int,
            suffix_end: self.suffix_end as int,
            end: self.end as int,
        }
    }
}

fn line_tail_at(s: &[char], p: usize) -> (r: Option<usize>)
    requires
        p <= s@.len(),
    ensures
        match r {
            Some(e) => line_tail_ok(s@, p as int) && e == p + class_run(s@, p as int, BLANK),
            None => !line_tail_ok(s@, p as int),
        },
{
    let b = p + class_run_len(s, p, BLANK);
    if b == s.len() || s[b] == '\n' {
        Some(b)
    } else {
        None
    }
}

fn stage_suffix_at(s: &[char], p: usize) -> (r: Option<usize>)
    requires
        p <= s@.len(),
    ensures
        match r {
            Some(t) => stage_suffix(s@, p as int) == Some(t as int),
            None => stage_suffix(s@, p as int) is None,
        },
        r matches Some(t) ==> t <= s@.len(),
{
    let g = p + space_run_len(s, p);
    if g > p && g < s.len() && g + 1 < s.len() && (s[g] == 'A' || s[g] == 'a') && (s[g + 1] == 'S' || s[g + 1]
        == 's') {
        let r = g + 2 + space_run_len(s, g + 2);
        if r > g + 2 {
            let t = r + nonspace_run_len(s, r);
            if t > r {
                return Some(t);
            }
        }
    }
    None
}

fn from_at_exec(s: &[char], i: usize) -> (r: Option<Found>)
    requires
        i < s@.len(),
    ensures
        match r {
            Some(f) => from_at(s@, i as int) == Some(f.span()),
            None => from_at(s@, i as int) is None,
        },
{
    if !(i == 0 || s[i - 1] == '\n') {
        return None;
    }
    let kw = ['F', 'R', 'O', 'M'];
    assert(kw@ =~= from_keyword());
    if !matches_at(s, kw.as_slice(), i) {
        return None;
    }
    let o = i + 4 + space_run_len(s, i + 4);
    if !(o > i + 4 && o < s.len() && class_has(s[o], ALNUM)) {
        return None;
    }
    let c = o + 1 + class_run_len(s, o + 1, ALNUM_DOT_SLASH_DASH);
    if !(c < s.len() && s[c] == ':') {
        return None;
    }
    let tn = class_run_len(s, c + 1, ALNUM_DOT_DASH);
    if tn == 0 {
        return None;
    }
    let te = c + 1 + tn;
    let marker = ['@', 's', 'h', 'a', '2', '5', '6', ':'];
    assert(marker@ =~= sha256_marker());
    let mut de = te;
    if matches_at(s, marker.as_slice(), te) {
        let hn = class_run_len(s, te + 8, LOWER_HEX);
        if hn > 0 {
            de = te + 8 + hn;
        }
    }
    match stage_suffix_at(s, de) {
        Some(t) => {
            match line_tail_at(s, t) {
                Some(e) => {
                    return Some(
                        Found {
                            start: i,
                            image: o,
                            colon: c,
                            tag_end: te,
                            digest_end: de,
                            suffix_end: t,
                            end: e,
                        },
                    );
                },
                None => {},
            }
        },
        None => {},
    }
    match line_tail_at(s, de) {
        Some(e) => Some(
            Found {
                start: i,
                image: o,
                colon: c,
                tag_end: te,
                digest_end: de,
                suffix_end: de,
                end: e,
            },
        ),
        None => None,
    }
}

fn next_from_exec(s: &[char], from: usize) -> (r: Option<Found>)
    requires
        from <= s@.len(),
    ensures
        match r {
            Some(f) => next_from(s@, from as int) == Some(f.span()),
            None => next_from(s@, from as int) is None,
        },
{
    let mut i = from;
    while i < s.len()
        invariant
            from <= i <= s@.len(),
            next_from(s@, from as int) == next_from(s@, i as int),
        decreases s@.len() - i,
    {
        match from_at_exec(s, i) {
            Some(f) => {
                return Some(f);
            },
            None => {},
        }
        i = i + 1;
    }
    None
}

/// Appends the replacement of line `f` to `out` and its change to `changes`.
fn replace_line(
    s: &[char],
    f: &Found,
    frozen: bool,
    answer: Option<(String, Option<String>)>,
    out: &mut Vec<char>,
    changes: &mut Vec<Change>,
)
    requires
        from_at(s@, f.start as int) == Some(f.span()),
    ensures
        final(out)@ == old(out)@ + from_replacement(s@, f.span(), frozen, image_answer_view(answer)).0,
        change_views(final(changes)@) == change_views(old(changes)@) + from_replacement(
            s@,
            f.span(),
            frozen,
            image_answer_view(answer),
        ).1,
{
    proof {
        lemma_from_at(s@, f.start as int);
    }
    let ghost rep = from_replacement(s@, f.span(), frozen, image_answer_view(answer));
    match answer {
        None => {
            push_range(out, s, f.start, f.end);
            assert(change_views(changes@) =~= change_views(old(changes)@) + rep.1);
        },
        Some((new_tag, digest)) => {
            let tag = string_of(&s[f.colon + 1..f.tag_end]);
            let old_digest = string_of(&s[f.tag_end..f.digest_end]);
            let mut digest_part: Vec<char> = Vec::new();
            if frozen {
                match digest {
                    Some(d) => {
                        digest_part.push('@');
                        push_str(&mut digest_part, d.as_str());
                    },
                    None => {},
                }
            }
            let digest_str = string_of(digest_part.as_slice());
            if new_tag == tag && digest_str == old_digest {
                push_range(out, s, f.start, f.end);
                assert(change_views(changes@) =~= change_views(old(changes)@) + rep.1);
            } else {
                let image = string_of(&s[f.image..f.colon]);
                push_range(out, s, f.start, f.colon);
                out.push(':');
                push_str(out, new_tag.as_str());
                push_str(out, digest_str.as_str());
                push_range(out, s, f.digest_end, f.suffix_end);
                proof {
                    assert(out@ =~= old(out)@ + rep.0);
                }
                let mut from_v: Vec<char> = Vec::new();
                push_range(&mut from_v, s, f.colon + 1, f.digest_end);
                let mut to_v: Vec<char> = Vec::new();
                push_str(&mut to_v, new_tag.as_str());
                push_str(&mut to_v, digest_str.as_str());
                proof {
                    assert(from_v@ =~= tag@ + old_digest@);
                }
                changes.push(
                    Change {
                        name: image,
                        from: string_of(from_v.as_slice()),
                        to: string_of(to_v.as_slice()),
                        kind: ChangeKind::Image,
                    },
                );
                assert(change_views(changes@) =~= change_views(old(changes)@) + rep.1);
            }
        },
    }
}

/// Rewrite every resolvable `FROM` line. `resolve(image, tag)` returns the new
/// tag and (when needed) a digest. Returns new text + changes.
///
/// The resolver is asked once per `FROM` line, in order; the result is the
/// rewrite of the text under the answers it gave.
pub fn rewrite_from<F: Fn(&str, &str) -> Option<(String, Option<String>)>>(
    text: &str,
    frozen: bool,
    resolve: F,
) -> (r: (String, Vec<Change>))
    requires
        forall|x: &str, y: &str| call_requires(resolve, (x, y)),
    ensures
        exists|ans: Seq<Option<(Seq<char>, Option<Seq<char>>)>>|
            {
                &&& has_n_from_lines(text@, ans.len())
                &&& forall|k: nat|
                    k < ans.len() ==> image_resolved_by(
                        resolve,
                        image_of(text@, from_nth(text@, k)->0),
                        tag_of(text@, from_nth(text@, k)->0),
                        #[trigger] ans[k as int],
                    )
                &&& r.0@ == from_rewrite_of(text@, frozen, ans).0
                &&& change_views(r.1@) == from_rewrite_of(text@, frozen, ans).1
            },
{
    let sv = chars_of(text);
    let s = sv.as_slice();
    let mut out: Vec<char> = Vec::new();
    let mut changes: Vec<Change> = Vec::new();
    let mut pos: usize = 0;
    let ghost mut ans: Seq<Option<(Seq<char>, Option<Seq<char>>)>> = seq![];
    loop
        invariant
            s@ == text@,
            forall|x: &str, y: &str| call_requires(resolve, (x, y)),
            pos <= s@.len(),
            pos == from_pos(s@, ans.len()),
            forall|k: nat| k < ans.len() ==> #[trigger] from_nth(s@, k) is Some,
            forall|k: nat|
                k < ans.len() ==> image_resolved_by(
                    resolve,
                    image_of(s@, from_nth(s@, k)->0),
                    tag_of(s@, from_nth(s@, k)->0),
                    #[trigger] ans[k as int],
                ),
            out@ == from_done(s@, frozen, ans).0,
            change_views(changes@) == from_done(s@, frozen, ans).1,
        decreases s@.len() - pos,
    {
        let found = next_from_exec(s, pos);
        match found {
            None => {
                push_range(&mut out, s, pos, s.len());
                let new_text = string_of(out.as_slice());
                return (new_text, changes);
            },
            Some(f) => {
                proof {
                    lemma_next_from(s@, pos as int);
                    lemma_from_at(s@, f.start as int);
                }
                let image = string_of(&s[f.image..f.colon]);
                let tag = string_of(&s[f.colon + 1..f.tag_end]);
                let answer = resolve(image.as_str(), tag.as_str());
                let ghost a = image_answer_view(answer);
                proof {
                    assert(image_resolved_by(resolve, image@, tag@, a));
                }
                push_range(&mut out, s, pos, f.start);
                let end = f.end;
                let ghost before_changes = change_views(changes@);
                let ghost rep = from_replacement(s@, f.span(), frozen, a);
                replace_line(s, &f, frozen, answer, &mut out, &mut changes);
                proof {
                    let k = ans.len();
                    let ans2 = ans.push(a);
                    assert(ans2.drop_last() =~= ans);
                    assert(from_pos(s@, ans2.len()) == end);
                    assert forall|j: nat| j < ans2.len() implies #[trigger] from_nth(s@, j) is Some by {
                        if j < k {
                        } else {
                            assert(j == k);
                        }
                    }
                    assert forall|j: nat|
                        j < ans2.len() implies image_resolved_by(
                        resolve,
                        image_of(s@, from_nth(s@, j)->0),
                        tag_of(s@, from_nth(s@, j)->0),
                        #[trigger] ans2[j as int],
                    ) by {
                        if j < k {
                            assert(ans2[j as int] == ans[j as int]);
                        } else {
                            assert(j == k);
                        }
                    }
                    assert(change_views(changes@) =~= before_changes + rep.1);
                    ans = ans2;
                }
                pos = end;
            },
        }
    }
}

} // verus!
