//! Package-registry queries: where each registry answers, and what its JSON
//! answer means. Fetching the answers is left to the caller; every read is
//! size-capped, and any failure yields `None`.

use vstd::prelude::*;

use crate::scan::{class_run, class_run_len, in_class, lemma_class_run, push_range, DIGIT_OR_DOT};
use crate::text::{chars_of, concat, string_of, views_of};
use crate::version::{
    digits_value, key_less, key_lt, law_key_order_irreflexive, law_key_order_transitive, version_key,
    version_key_of,
};

verus! {

/// A JSON document as the registries send it.
pub enum JsonValue {
    Null,
    Bool(bool),
    /// A number, in its textual form.
    Number(String),
    Str(String),
    Array(Vec<JsonValue>),
    /// An object's members, in order, each key once.
    Object(Vec<(String, JsonValue)>),
}

/// Index of the first member of `members` named `key`.
pub open spec fn member_index(members: Seq<(String, JsonValue)>, key: Seq<char>) -> Option<int>
    decreases members.len(),
{
    if members.len() == 0 {
        None
    } else if members[0].0@ == key {
        Some(0)
    } else {
        match member_index(members.drop_first(), key) {
            Some(k) => Some(k + 1),
            None => None,
        }
    }
}

/// The member `key` of an object (`None` for a missing key or a non-object).
pub open spec fn json_get(v: JsonValue, key: Seq<char>) -> Option<JsonValue> {
    match v {
        JsonValue::Object(members) => match member_index(members@, key) {
            Some(k) => Some(members@[k].1),
            None => None,
        },
        _ => None,
    }
}

/// The view of an optional string.
pub open spec fn opt_view(o: Option<String>) -> Option<Seq<char>> {
    match o {
        Some(s) => Some(s@),
        None => None,
    }
}

/// The latest version in a PyPI answer: `info.version`.
pub open spec fn pypi_version(doc: Option<JsonValue>) -> Option<Seq<char>> {
    match doc {
        Some(d) => json_str(json_path(json_get(d, "info"@), "version"@)),
        None => None,
    }
}

/// The latest version in an npm answer: `version`.
pub open spec fn npm_version(doc: Option<JsonValue>) -> Option<Seq<char>> {
    match doc {
        Some(d) => json_str(json_get(d, "version"@)),
        None => None,
    }
}

/// The latest stable version in a crates.io answer: `crate.max_stable_version`.
pub open spec fn crate_version(doc: Option<JsonValue>) -> Option<Seq<char>> {
    match doc {
        Some(d) => json_str(json_path(json_get(d, "crate"@), "max_stable_version"@)),
        None => None,
    }
}

/// The text of a string value.
pub open spec fn json_str(v: Option<JsonValue>) -> Option<Seq<char>> {
    match v {
        Some(JsonValue::Str(s)) => Some(s@),
        _ => None,
    }
}

/// The elements of an array value.
pub open spec fn json_array(v: Option<JsonValue>) -> Option<Seq<JsonValue>> {
    match v {
        Some(JsonValue::Array(a)) => Some(a@),
        _ => None,
    }
}

/// `v.get(key)` on an object.
pub open spec fn json_path(v: Option<JsonValue>, key: Seq<char>) -> Option<JsonValue> {
    match v {
        Some(x) => json_get(x, key),
        None => None,
    }
}

proof fn lemma_member_index(members: Seq<(String, JsonValue)>, key: Seq<char>, i: int)
    requires
        0 <= i <= members.len(),
        forall|j: int| 0 <= j < i ==> members[j].0@ != key,
        i == members.len() || members[i].0@ == key,
    ensures
        member_index(members, key) == (if i == members.len() {
            None::<int>
        } else {
            Some(i)
        }),
    decreases i,
{
    if i > 0 {
        lemma_member_index(members.drop_first(), key, i - 1);
    }
}

impl JsonValue {
    /// The member `key` of an object.
    pub fn get(&self, key: &str) -> (r: Option<&JsonValue>)
        ensures
            match r {
                Some(x) => json_get(*self, key@) == Some(*x),
                None => json_get(*self, key@) is None,
            },
    {
        match self {
            JsonValue::Object(members) => {
                let k = key.to_owned();
                let mut i: usize = 0;
                while i < members.len()
                    invariant
                        *self == JsonValue::Object(*members),
                        i <= members@.len(),
                        k@ == key@,
                        forall|j: int| 0 <= j < i ==> members@[j].0@ != key@,
                    decreases members@.len() - i,
                {
                    if members[i].0 == k {
                        proof {
                            lemma_member_index(members@, key@, i as int);
                        }
                        assert(members@[i as int].1 == members[i as int].1);
                        return Some(&members[i].1);
                    }
                    i = i + 1;
                }
                proof {
                    lemma_member_index(members@, key@, i as int);
                }
                None
            },
            _ => None,
        }
    }

    /// The text of a string value.
    pub fn as_str(&self) -> (r: Option<&String>)
        ensures
            match r {
                Some(s) => json_str(Some(*self)) == Some(s@),
                None => json_str(Some(*self)) is None,
            },
    {
        match self {
            JsonValue::Str(s) => Some(s),
            _ => None,
        }
    }

    /// The elements of an array value.
    pub fn as_array(&self) -> (r: Option<&Vec<JsonValue>>)
        ensures
            match r {
                Some(a) => json_array(Some(*self)) == Some(a@),
                None => json_array(Some(*self)) is None,
            },
    {
        match self {
            JsonValue::Array(a) => Some(a),
            _ => None,
        }
    }
}

/// `o.get(key)` for an optional value.
fn get_opt<'a>(o: Option<&'a JsonValue>, key: &str) -> (r: Option<&'a JsonValue>)
    ensures
        match r {
            Some(x) => json_path(opt_deref(o), key@) == Some(*x),
            None => json_path(opt_deref(o), key@) is None,
        },
{
    match o {
        Some(v) => v.get(key),
        None => None,
    }
}

/// The value an optional reference points at.
pub open spec fn opt_deref(o: Option<&JsonValue>) -> Option<JsonValue> {
    match o {
        Some(v) => Some(*v),
        None => None,
    }
}

/// The string at the end of an optional path.
fn str_opt(o: Option<&JsonValue>) -> (r: Option<String>)
    ensures
        match r {
            Some(s) => json_str(opt_deref(o)) == Some(s@),
            None => json_str(opt_deref(o)) is None,
        },
{
    match o {
        Some(v) => match v.as_str() {
            Some(s) => Some(s.clone()),
            None => None,
        },
        None => None,
    }
}

// ---------------------------------------------------------------------------
// Docker tag shapes
// ---------------------------------------------------------------------------

/// The leading run of digits and dots of a tag.
pub open spec fn numeric_prefix(tag: Seq<char>) -> Seq<char> {
    tag.subrange(0, class_run(tag, 0, DIGIT_OR_DOT) as int)
}

/// What follows the leading run of digits and dots (`-slim` in `3.13-slim`).
pub open spec fn tag_suffix(tag: Seq<char>) -> Seq<char> {
    tag.subrange(class_run(tag, 0, DIGIT_OR_DOT) as int, tag.len() as int)
}

/// The numbers of the non-empty dot-separated pieces of `s` (a string of
/// digits and dots), dropping those too large for a `u64`.
pub open spec fn dotted_numbers(s: Seq<char>) -> Seq<u64>
    decreases s.len(),
{
    let k = last_dot(s);
    proof {
        lemma_last_dot(s);
    }
    let piece = s.subrange(k + 1, s.len() as int);
    let rest = if k < 0 {
        seq![]
    } else {
        dotted_numbers(s.subrange(0, k))
    };
    if piece.len() > 0 && digits_value(piece) <= u64::MAX {
        rest.push(digits_value(piece) as u64)
    } else {
        rest
    }
}

/// Index of the last `.` in `s`, or -1.
pub open spec fn last_dot(s: Seq<char>) -> int
    decreases s.len(),
{
    if s.len() == 0 {
        -1
    } else if s.last() == '.' {
        s.len() - 1
    } else {
        last_dot(s.drop_last())
    }
}

/// Leading numeric components of a docker tag, before any non-numeric suffix.
/// "3.13-slim" -> [3,13]; "22.04" -> [22,4]; "latest" -> [].
pub open spec fn numeric_components_of(tag: Seq<char>) -> Seq<u64> {
    dotted_numbers(numeric_prefix(tag))
}

/// Two tags share a shape when their non-numeric suffixes are identical and
/// the current tag's numeric components are a prefix of the candidate's: the
/// candidate stays on the same numeric line.
pub open spec fn same_shape(candidate: Seq<char>, current: Seq<char>) -> bool {
    let cur = numeric_components_of(current);
    let cand = numeric_components_of(candidate);
    &&& candidate.len() > 0 && '0' <= candidate[0] && candidate[0] <= '9'
    &&& tag_suffix(candidate) == tag_suffix(current)
    &&& cur.len() <= cand.len()
    &&& cand.subrange(0, cur.len() as int) == cur
}

pub proof fn lemma_last_dot(s: Seq<char>)
    ensures
        -1 <= last_dot(s) < s.len(),
        last_dot(s) >= 0 ==> s[last_dot(s)] == '.',
        forall|j: int| last_dot(s) < j < s.len() ==> s[j] != '.',
    decreases s.len(),
{
    if s.len() > 0 && s.last() != '.' {
        lemma_last_dot(s.drop_last());
        assert forall|j: int| last_dot(s) < j < s.len() implies s[j] != '.' by {
            if j < s.len() - 1 {
                assert(s.drop_last()[j] == s[j]);
            }
        }
    }
}

/// The numbers of the last piece of `s`, after its last dot at `start - 1`,
/// added to those of what comes before.
pub open spec fn dotted_step(s: Seq<char>, start: int) -> Seq<u64> {
    let rest = if start == 0 {
        Seq::<u64>::empty()
    } else {
        dotted_numbers(s.subrange(0, start - 1))
    };
    let piece = s.subrange(start, s.len() as int);
    if piece.len() > 0 && digits_value(piece) <= u64::MAX {
        rest.push(digits_value(piece) as u64)
    } else {
        rest
    }
}

/// `dotted_numbers` of a string whose last `.` sits just before `start`.
proof fn lemma_dotted_unfold(s: Seq<char>, start: int)
    requires
        0 <= start <= s.len(),
        start == 0 || s[start - 1] == '.',
        forall|j: int| start <= j < s.len() ==> s[j] != '.',
    ensures
        last_dot(s) == start - 1,
        dotted_numbers(s) == dotted_step(s, start),
{
    lemma_last_dot(s);
    if last_dot(s) < start - 1 {
        assert(s[start - 1] == '.');
    }
}

/// Leading numeric components of a docker tag (exec).
fn numeric_components(tag: &Vec<char>) -> (r: Vec<u64>)
    ensures
        r@ == numeric_components_of(tag@),
{
    let n = class_run_len(tag.as_slice(), 0, DIGIT_OR_DOT);
    proof {
        lemma_class_run(tag@, 0, DIGIT_OR_DOT);
    }
    let ghost pre = numeric_prefix(tag@);
    let mut out: Vec<u64> = Vec::new();
    let mut val: u64 = 0;
    let mut big = false;
    let mut start: usize = 0;
    let mut i: usize = 0;
    assert(pre.subrange(0, 0) =~= Seq::<char>::empty());
    while i < n
        invariant
            i <= n,
            n <= tag@.len(),
            pre == tag@.subrange(0, n as int),
            forall|j: int| 0 <= j < n ==> in_class(#[trigger] tag@[j], DIGIT_OR_DOT),
            start <= i,
            start == 0 || pre[start - 1] == '.',
            forall|j: int| start <= j < i ==> pre[j] != '.',
            out@ == (if start == 0 {
                Seq::<u64>::empty()
            } else {
                dotted_numbers(pre.subrange(0, start - 1))
            }),
            big == (digits_value(pre.subrange(start as int, i as int)) > u64::MAX),
            !big ==> val == digits_value(pre.subrange(start as int, i as int)),
        decreases n - i,
    {
        let c = tag[i];
        assert(pre[i as int] == c);
        assert(in_class(tag@[i as int], DIGIT_OR_DOT));
        if c == '.' {
            let ghost upto = pre.subrange(0, i as int);
            proof {
                lemma_dotted_unfold(upto, start as int);
                if start > 0 {
                    assert(upto.subrange(0, start - 1) =~= pre.subrange(0, start - 1));
                }
                assert(upto.subrange(start as int, i as int) =~= pre.subrange(
                    start as int,
                    i as int,
                ));
            }
            if i > start && !big {
                out.push(val);
            }
            start = i + 1;
            val = 0;
            big = false;
            assert(pre.subrange(0, start - 1) =~= upto);
            assert(pre.subrange(start as int, i + 1) =~= Seq::<char>::empty());
        } else {
            let d = (c as u32 - '0' as u32) as u64;
            let ghost piece = pre.subrange(start as int, i as int);
            let ghost piece2 = pre.subrange(start as int, i + 1);
            assert(piece2.drop_last() =~= piece);
            assert(digits_value(piece2) == digits_value(piece) * 10 + d);
            if !big {
                if val > (u64::MAX - d) / 10 {
                    big = true;
                    assert(val * 10 + d > u64::MAX) by (nonlinear_arith)
                        requires
                            val > (u64::MAX - d) / 10,
                            d < 10,
                    ;
                } else {
                    assert(val * 10 + d <= u64::MAX) by (nonlinear_arith)
                        requires
                            val <= (u64::MAX - d) / 10,
                            d < 10,
                    ;
                    val = val * 10 + d;
                }
            } else {
                assert(digits_value(piece) * 10 + d >= digits_value(piece)) by (nonlinear_arith);
            }
        }
        i = i + 1;
    }
    proof {
        lemma_dotted_unfold(pre, start as int);
        if start > 0 {
            assert(pre.subrange(0, start - 1) =~= pre.subrange(0, start - 1));
        }
    }
    if n > start && !big {
        out.push(val);
    }
    out
}

/// Whether `candidate` stays on `current`'s numeric line with its suffix.
fn shape_matches(candidate: &Vec<char>, current: &Vec<char>) -> (r: bool)
    ensures
        r == same_shape(candidate@, current@),
{
    if candidate.len() == 0 || !('0' <= candidate[0] && candidate[0] <= '9') {
        return false;
    }
    let a = class_run_len(candidate.as_slice(), 0, DIGIT_OR_DOT);
    let b = class_run_len(current.as_slice(), 0, DIGIT_OR_DOT);
    let mut va: Vec<char> = Vec::new();
    push_range(&mut va, candidate.as_slice(), a, candidate.len());
    let mut vb: Vec<char> = Vec::new();
    push_range(&mut vb, current.as_slice(), b, current.len());
    let sa = string_of(va.as_slice());
    let sb = string_of(vb.as_slice());
    assert(va@ =~= tag_suffix(candidate@));
    assert(vb@ =~= tag_suffix(current@));
    if sa != sb {
        return false;
    }
    let cur = numeric_components(current);
    let cand = numeric_components(candidate);
    if cur.len() > cand.len() {
        return false;
    }
    let mut i: usize = 0;
    while i < cur.len()
        invariant
            i <= cur@.len(),
            cur@.len() <= cand@.len(),
            cur@ == numeric_components_of(current@),
            cand@ == numeric_components_of(candidate@),
            forall|j: int| 0 <= j < i ==> cand@[j] == cur@[j],
        decreases cur@.len() - i,
    {
        if cand[i] != cur[i] {
            assert(cand@.subrange(0, cur@.len() as int)[i as int] != cur@[i as int]);
            return false;
        }
        i = i + 1;
    }
    assert(cand@.subrange(0, cur@.len() as int) =~= cur@);
    true
}

/// The name of a tag entry (empty when missing).
pub open spec fn tag_name(t: JsonValue) -> Seq<char> {
    match json_str(json_get(t, "name"@)) {
        Some(n) => n,
        None => seq![],
    }
}

/// The tag with the highest version key among the non-empty `names` on
/// `current`'s line; the first of equal keys wins.
pub open spec fn best_name(names: Seq<Seq<char>>, current: Seq<char>) -> Option<Seq<char>>
    decreases names.len(),
{
    if names.len() == 0 {
        None
    } else {
        let b = best_name(names.drop_last(), current);
        let n = names.last();
        if n.len() == 0 || !same_shape(n, current) {
            b
        } else {
            match b {
                None => Some(n),
                Some(bn) => if key_lt(version_key_of(bn), version_key_of(n)) {
                    Some(n)
                } else {
                    b
                },
            }
        }
    }
}

/// The names of Docker Hub tag entries.
pub open spec fn tag_names(tags: Seq<JsonValue>) -> Seq<Seq<char>> {
    tags.map_values(|t: JsonValue| tag_name(t))
}

/// The newest tag on `current`'s line in a Docker Hub tag list.
pub open spec fn best_tag(tags: Seq<JsonValue>, current: Seq<char>) -> Option<Seq<char>> {
    best_name(tag_names(tags), current)
}

/// The tag chosen from a list of tag names is a listed name on the current
/// tag's numeric line, and no listed name on that line has a higher version
/// key: a `3.13-slim` pin never moves to `3.14-slim`.
pub proof fn law_latest_tag_is_newest_on_line(names: Seq<Seq<char>>, current: Seq<char>)
    ensures
        best_name(names, current) matches Some(t) ==> (t.len() > 0 && same_shape(t, current) && exists|
            i: int,
        | 0 <= i < names.len() && #[trigger] names[i] == t),
        forall|i: int|
            0 <= i < names.len() && (#[trigger] names[i]).len() > 0 && same_shape(names[i], current)
                ==> (best_name(names, current) matches Some(b) && !key_lt(
                version_key_of(b),
                version_key_of(names[i]),
            )),
    decreases names.len(),
{
    if names.len() > 0 {
        let init = names.drop_last();
        law_latest_tag_is_newest_on_line(init, current);
        let n = names.last();
        let b = best_name(init, current);
        if let Some(t) = best_name(names, current) {
            if t == n && !(n.len() == 0 || !same_shape(n, current)) && (b is None || key_lt(
                version_key_of(b->0),
                version_key_of(n),
            )) {
                assert(names[names.len() - 1] == t);
            } else {
                let i = choose|i: int| 0 <= i < init.len() && #[trigger] init[i] == t;
                assert(names[i] == init[i]);
            }
        }
        assert forall|i: int|
            0 <= i < names.len() && (#[trigger] names[i]).len() > 0 && same_shape(names[i], current)
                implies (best_name(names, current) matches Some(bb) && !key_lt(
            version_key_of(bb),
            version_key_of(names[i]),
        )) by {
            let ki = version_key_of(names[i]);
            if i < names.len() - 1 {
                assert(names[i] == init[i]);
                let kb = version_key_of(b->0);
                if n.len() > 0 && same_shape(n, current) && key_lt(kb, version_key_of(n)) {
                    if key_lt(version_key_of(n), ki) {
                        law_key_order_transitive(kb, version_key_of(n), ki);
                    }
                }
            } else {
                law_key_order_irreflexive(ki);
            }
        }
    }
}

/// The newest of `names` on `current`'s line (exec).
fn best_of_names(names: &Vec<String>, current_tag: &str) -> (r: Option<String>)
    ensures
        match r {
            Some(t) => best_name(views_of(names@), current_tag@) == Some(t@),
            None => best_name(views_of(names@), current_tag@) is None,
        },
{
    let cur = chars_of(current_tag);
    let ghost all = views_of(names@);
    let mut best: Option<(Vec<u64>, String)> = None;
    let mut i: usize = 0;
    while i < names.len()
        invariant
            i <= names@.len(),
            cur@ == current_tag@,
            all == views_of(names@),
            match best {
                Some((k, n)) => best_name(all.subrange(0, i as int), current_tag@) == Some(n@)
                    && k@ == version_key_of(n@),
                None => best_name(all.subrange(0, i as int), current_tag@) is None,
            },
        decreases names@.len() - i,
    {
        let ghost sub = all.subrange(0, i + 1);
        assert(sub.drop_last() =~= all.subrange(0, i as int));
        assert(sub.last() == names@[i as int]@);
        let name = names[i].clone();
        let nv = chars_of(name.as_str());
        if nv.len() > 0 && shape_matches(&nv, &cur) {
            let key = version_key(name.as_str());
            let better = match &best {
                None => true,
                Some((bk, _)) => key_less(bk, &key),
            };
            if better {
                best = Some((key, name));
            }
        }
        i = i + 1;
    }
    assert(all.subrange(0, all.len() as int) =~= all);
    match best {
        Some((_, n)) => Some(n),
        None => None,
    }
}

/// The names of GHCR tags: each string, and an empty name for anything else.
pub open spec fn ghcr_names(tags: Seq<JsonValue>) -> Seq<Seq<char>> {
    tags.map_values(|t: JsonValue| match t {
        JsonValue::Str(s) => s@,
        _ => Seq::<char>::empty(),
    })
}

/// The digest in a tag answer: `digest`, else the first image's `digest`.
pub open spec fn digest_of(doc: JsonValue) -> Option<Seq<char>> {
    match json_str(json_get(doc, "digest"@)) {
        Some(d) => Some(d),
        None => match json_array(json_get(doc, "images"@)) {
            Some(a) => if a.len() > 0 {
                json_str(json_get(a[0], "digest"@))
            } else {
                None
            },
            None => None,
        },
    }
}

/// The repository path of an image: library images live under `library/`.
pub open spec fn image_repo(image: Seq<char>) -> Seq<char> {
    if image.contains('/') {
        image
    } else {
        "library/"@ + image
    }
}

/// The JSON document that `serde_json` parses from `text`, or `None` when it
/// rejects the text.
pub uninterp spec fn json_document(text: Seq<char>) -> Option<JsonValue>;

/// A parsed JSON value of the `serde_json` crate.
#[verifier::external_type_specification]
#[verifier::external_body]
pub struct ExSerdeJsonValue(serde_json::Value);

/// `serde_json::from_str::<serde_json::Value>`: parses a JSON document; the
/// parsed value is handed back as a [`JsonValue`], one for one.
#[verifier::external_body]
pub fn parse_json(body: &str) -> (r: Option<JsonValue>)
    ensures
        r == json_document(body@),
{
    serde_json::from_str::<serde_json::Value>(body).ok().map(json_of_serde)
}

/// The [`JsonValue`] a parsed `serde_json::Value` is, variant for variant
/// (a number by its text). Only [`parse_json`] uses it.
#[verifier::external_body]
fn json_of_serde(v: serde_json::Value) -> JsonValue {
    match v {
        serde_json::Value::Null => JsonValue::Null,
        serde_json::Value::Bool(b) => JsonValue::Bool(b),
        serde_json::Value::Number(n) => JsonValue::Number(n.to_string()),
        serde_json::Value::String(s) => JsonValue::Str(s),
        serde_json::Value::Array(a) => JsonValue::Array(a.into_iter().map(json_of_serde).collect()),
        serde_json::Value::Object(m) => JsonValue::Object(
            m.into_iter().map(|(k, x)| (k, json_of_serde(x))).collect(),
        ),
    }
}

/// The registry endpoints and the cap on answer size.
pub struct Registry {
    pub pypi_base: String,
    pub npm_base: String,
    pub crates_base: String,
    pub docker_base: String,
    pub ghcr_base: String,
    pub max_bytes: usize,
}

impl Default for Registry {
    fn default() -> (r: Self)
        ensures
            r.pypi_base@ == "https://pypi.org"@,
            r.npm_base@ == "https://registry.npmjs.org"@,
            r.crates_base@ == "https://crates.io"@,
            r.docker_base@ == "https://hub.docker.com"@,
            r.ghcr_base@ == "https://ghcr.io"@,
            r.max_bytes == 2_000_000,
    {
        Registry {
            pypi_base: "https://pypi.org".to_owned(),
            npm_base: "https://registry.npmjs.org".to_owned(),
            crates_base: "https://crates.io".to_owned(),
            docker_base: "https://hub.docker.com".to_owned(),
            ghcr_base: "https://ghcr.io".to_owned(),
            max_bytes: 2_000_000,
        }
    }
}

/// Whether `c` occurs in `s`.
fn has_char(s: &str, c: char) -> (r: bool)
    ensures
        r == s@.contains(c),
{
    let v = chars_of(s);
    let mut i: usize = 0;
    while i < v.len()
        invariant
            i <= v@.len(),
            v@ == s@,
            forall|j: int| 0 <= j < i ==> v@[j] != c,
        decreases v@.len() - i,
    {
        if v[i] == c {
            return true;
        }
        i = i + 1;
    }
    false
}

impl Registry {
    /// Whether an answer of `body` is within the size cap (in UTF-8 bytes).
    pub fn within_cap(&self, body: &str) -> (r: bool)
        ensures
            r == (body.len() <= self.max_bytes),
    {
        body.len() <= self.max_bytes
    }

    /// The JSON document of an answer `body`: `None` when the body is over the
    /// size cap or does not parse.
    pub fn body_json(&self, body: &str) -> (r: Option<JsonValue>)
        ensures
            !(body.len() <= self.max_bytes) ==> r is None,
            body.len() <= self.max_bytes ==> r == json_document(body@),
    {
        if !self.within_cap(body) {
            return None;
        }
        parse_json(body)
    }

    /// `{pypi}/pypi/{name}/json`
    pub fn pypi_url(&self, name: &str) -> (r: String)
        ensures
            r@ == self.pypi_base@ + "/pypi/"@ + name@ + "/json"@,
    {
        let a = concat(self.pypi_base.as_str(), "/pypi/");
        let b = concat(a.as_str(), name);
        concat(b.as_str(), "/json")
    }

    /// `{npm}/{name}/latest`
    pub fn npm_url(&self, name: &str) -> (r: String)
        ensures
            r@ == self.npm_base@ + "/"@ + name@ + "/latest"@,
    {
        let a = concat(self.npm_base.as_str(), "/");
        let b = concat(a.as_str(), name);
        concat(b.as_str(), "/latest")
    }

    /// `{crates}/api/v1/crates/{name}`
    pub fn crate_url(&self, name: &str) -> (r: String)
        ensures
            r@ == self.crates_base@ + "/api/v1/crates/"@ + name@,
    {
        let a = concat(self.crates_base.as_str(), "/api/v1/crates/");
        concat(a.as_str(), name)
    }

    /// The repository path of `image`.
    fn repo_of(image: &str) -> (r: String)
        ensures
            r@ == image_repo(image@),
    {
        if has_char(image, '/') {
            image.to_owned()
        } else {
            concat("library/", image)
        }
    }

    /// The newest 100 tags of `image`, by last update.
    pub fn docker_tags_url(&self, image: &str) -> (r: String)
        ensures
            r@ == self.docker_base@ + "/v2/repositories/"@ + image_repo(image@)
                + "/tags?page_size=100&ordering=last_updated"@,
    {
        let repo = Registry::repo_of(image);
        let a = concat(self.docker_base.as_str(), "/v2/repositories/");
        let b = concat(a.as_str(), repo.as_str());
        concat(b.as_str(), "/tags?page_size=100&ordering=last_updated")
    }

    /// The details of `image:tag`.
    pub fn docker_tag_url(&self, image: &str, tag: &str) -> (r: String)
        ensures
            r@ == self.docker_base@ + "/v2/repositories/"@ + image_repo(image@) + "/tags/"@ + tag@,
    {
        let repo = Registry::repo_of(image);
        let a = concat(self.docker_base.as_str(), "/v2/repositories/");
        let b = concat(a.as_str(), repo.as_str());
        let c = concat(b.as_str(), "/tags/");
        concat(c.as_str(), tag)
    }

    /// Where GHCR hands out an anonymous pull token for the repository `path`.
    pub fn ghcr_token_url(&self, path: &str) -> (r: String)
        ensures
            r@ == self.ghcr_base@ + "/token?scope=repository:"@ + path@ + ":pull"@,
    {
        let a = concat(self.ghcr_base.as_str(), "/token?scope=repository:");
        let b = concat(a.as_str(), path);
        concat(b.as_str(), ":pull")
    }

    /// The tag list of the GHCR repository `path`.
    pub fn ghcr_tags_url(&self, path: &str) -> (r: String)
        ensures
            r@ == self.ghcr_base@ + "/v2/"@ + path@ + "/tags/list"@,
    {
        let a = concat(self.ghcr_base.as_str(), "/v2/");
        let b = concat(a.as_str(), path);
        concat(b.as_str(), "/tags/list")
    }

    /// The manifest of `path:tag` on GHCR.
    pub fn ghcr_manifest_url(&self, path: &str, tag: &str) -> (r: String)
        ensures
            r@ == self.ghcr_base@ + "/v2/"@ + path@ + "/manifests/"@ + tag@,
    {
        let a = concat(self.ghcr_base.as_str(), "/v2/");
        let b = concat(a.as_str(), path);
        let c = concat(b.as_str(), "/manifests/");
        concat(c.as_str(), tag)
    }

    /// The token in a GHCR token answer: `token`.
    pub fn token(doc: &JsonValue) -> (r: Option<String>)
        ensures
            match r {
                Some(t) => json_str(json_get(*doc, "token"@)) == Some(t@),
                None => json_str(json_get(*doc, "token"@)) is None,
            },
    {
        str_opt(doc.get("token"))
    }

    /// The latest version of the PyPI package `name`: `info.version` of the
    /// document `fetch` gives for its JSON URL (`None` when it gives none).
    pub fn latest_pypi<F: Fn(&str) -> Option<JsonValue>>(&self, fetch: &F, name: &str) -> (r: Option<
        String,
    >)
        requires
            forall|u: &str| call_requires(*fetch, (u,)),
        ensures
            exists|u: &str, doc: Option<JsonValue>|
                {
                    &&& u@ == self.pypi_base@ + "/pypi/"@ + name@ + "/json"@
                    &&& #[trigger] call_ensures(*fetch, (u,), doc)
                    &&& opt_view(r) == pypi_version(doc)
                },
    {
        let url = self.pypi_url(name);
        let u = url.as_str();
        let doc = fetch(u);
        let r = match &doc {
            Some(d) => str_opt(get_opt(d.get("info"), "version")),
            None => None,
        };
        assert(call_ensures(*fetch, (u,), doc) && opt_view(r) == pypi_version(doc));
        r
    }

    /// The latest version of the npm package `name`: `version` of the
    /// document `fetch` gives for its `latest` URL (`None` when it gives none).
    pub fn latest_npm<F: Fn(&str) -> Option<JsonValue>>(&self, fetch: &F, name: &str) -> (r: Option<
        String,
    >)
        requires
            forall|u: &str| call_requires(*fetch, (u,)),
        ensures
            exists|u: &str, doc: Option<JsonValue>|
                {
                    &&& u@ == self.npm_base@ + "/"@ + name@ + "/latest"@
                    &&& #[trigger] call_ensures(*fetch, (u,), doc)
                    &&& opt_view(r) == npm_version(doc)
                },
    {
        let url = self.npm_url(name);
        let u = url.as_str();
        let doc = fetch(u);
        let r = match &doc {
            Some(d) => str_opt(d.get("version")),
            None => None,
        };
        assert(call_ensures(*fetch, (u,), doc) && opt_view(r) == npm_version(doc));
        r
    }

    /// The latest stable version of the crate `name`:
    /// `crate.max_stable_version` of the document `fetch` gives for its
    /// crates.io URL (`None` when it gives none).
    pub fn latest_crate<F: Fn(&str) -> Option<JsonValue>>(&self, fetch: &F, name: &str) -> (r: Option<
        String,
    >)
        requires
            forall|u: &str| call_requires(*fetch, (u,)),
        ensures
            exists|u: &str, doc: Option<JsonValue>|
                {
                    &&& u@ == self.crates_base@ + "/api/v1/crates/"@ + name@
                    &&& #[trigger] call_ensures(*fetch, (u,), doc)
                    &&& opt_view(r) == crate_version(doc)
                },
    {
        let url = self.crate_url(name);
        let u = url.as_str();
        let doc = fetch(u);
        let r = match &doc {
            Some(d) => str_opt(get_opt(d.get("crate"), "max_stable_version")),
            None => None,
        };
        assert(call_ensures(*fetch, (u,), doc) && opt_view(r) == crate_version(doc));
        r
    }

    /// Newest tag in a Docker Hub tag list whose shape matches `current_tag`'s
    /// granularity (e.g. `3.13-slim` stays on the `3.13-slim` line).
    pub fn latest_docker_tag(doc: &JsonValue, current_tag: &str) -> (r: Option<String>)
        ensures
            match json_array(json_get(*doc, "results"@)) {
                Some(tags) => match r {
                    Some(t) => best_tag(tags, current_tag@) == Some(t@),
                    None => best_tag(tags, current_tag@) is None,
                },
                None => r is None,
            },
    {
        let tags = match doc.get("results") {
            Some(v) => match v.as_array() {
                Some(a) => a,
                None => {
                    return None;
                },
            },
            None => {
                return None;
            },
        };
        let mut names: Vec<String> = Vec::new();
        let mut i: usize = 0;
        while i < tags.len()
            invariant
                i <= tags@.len(),
                names@.len() == i,
                forall|j: int| 0 <= j < i ==> (#[trigger] names@[j])@ == tag_name(tags@[j]),
            decreases tags@.len() - i,
        {
            let name = match str_opt(tags[i].get("name")) {
                Some(n) => n,
                None => String::new(),
            };
            names.push(name);
            i = i + 1;
        }
        assert(views_of(names@) =~= tag_names(tags@));
        best_of_names(&names, current_tag)
    }

    /// Newest tag in a GHCR tag list (`tags`, an array of names) on
    /// `current_tag`'s line.
    pub fn latest_ghcr_tag(doc: &JsonValue, current_tag: &str) -> (r: Option<String>)
        ensures
            match json_array(json_get(*doc, "tags"@)) {
                Some(tags) => match r {
                    Some(t) => best_name(ghcr_names(tags), current_tag@) == Some(t@),
                    None => best_name(ghcr_names(tags), current_tag@) is None,
                },
                None => r is None,
            },
    {
        let tags = match doc.get("tags") {
            Some(v) => match v.as_array() {
                Some(a) => a,
                None => {
                    return None;
                },
            },
            None => {
                return None;
            },
        };
        let mut names: Vec<String> = Vec::new();
        let mut i: usize = 0;
        while i < tags.len()
            invariant
                i <= tags@.len(),
                names@.len() == i,
                forall|j: int| 0 <= j < i ==> (#[trigger] names@[j])@ == ghcr_names(tags@)[j],
            decreases tags@.len() - i,
        {
            let name = match &tags[i] {
                JsonValue::Str(s) => s.clone(),
                _ => String::new(),
            };
            names.push(name);
            i = i + 1;
        }
        assert(views_of(names@) =~= ghcr_names(tags@));
        best_of_names(&names, current_tag)
    }

    /// The manifest digest in a Docker Hub tag answer: `digest`, else the
    /// first image's `digest`.
    pub fn docker_digest(doc: &JsonValue) -> (r: Option<String>)
        ensures
            match r {
                Some(d) => digest_of(*doc) == Some(d@),
                None => digest_of(*doc) is None,
            },
    {
        match str_opt(doc.get("digest")) {
            Some(d) => Some(d),
            None => {
                let first = match doc.get("images") {
                    Some(v) => match v.as_array() {
                        Some(a) => if a.len() > 0 {
                            Some(&a[0])
                        } else {
                            None
                        },
                        None => None,
                    },
                    None => None,
                };
                str_opt(get_opt(first, "digest"))
            },
        }
    }
}

} // verus!
