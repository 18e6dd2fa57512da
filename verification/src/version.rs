//! Version, name-normalization and tag-granularity primitives.

use vstd::prelude::*;

use crate::text::{
    chars_of, decimal, decimal_string, is_decimal_digit, is_white_space, string_of,
    unicode_decimal_digit, unicode_white_space,
};

verus! {

// ---------------------------------------------------------------------------
// Package-name normalization
// ---------------------------------------------------------------------------

/// The characters that PyPI treats as name separators.
pub open spec fn is_name_sep(c: char) -> bool {
    c == '-' || c == '_' || c == '.'
}

/// `s` with every maximal run of separators replaced by a single `-`.
pub open spec fn collapse_separators(s: Seq<char>) -> Seq<char>
    decreases s.len(),
{
    if s.len() == 0 {
        seq![]
    } else {
        let p = s.drop_last();
        if is_name_sep(s.last()) {
            if p.len() > 0 && is_name_sep(p.last()) {
                collapse_separators(p)
            } else {
                collapse_separators(p).push('-')
            }
        } else {
            collapse_separators(p).push(s.last())
        }
    }
}

/// What `str::to_lowercase` returns for `s`: the Unicode lowercase mapping.
pub uninterp spec fn unicode_lowercase(s: Seq<char>) -> Seq<char>;

/// ASCII lowercase of one character.
pub open spec fn ascii_lower_char(c: char) -> char {
    if 'A' <= c && c <= 'Z' {
        ((c as u32) + 32) as char
    } else {
        c
    }
}

/// Whether every character of `s` is ASCII.
pub open spec fn all_ascii(s: Seq<char>) -> bool {
    forall|i: int| 0 <= i < s.len() ==> (#[trigger] s[i] as u32) < 128
}

/// `str::to_lowercase`. Its result is named `unicode_lowercase`; on an ASCII
/// string the Unicode mapping lowers `A`..`Z` and keeps every other character,
/// which the second clause states.
#[verifier::external_body]
pub fn to_lowercase(s: &str) -> (r: String)
    ensures
        r@ == unicode_lowercase(s@),
        all_ascii(s@) ==> r@ == s@.map_values(|c: char| ascii_lower_char(c)),
{
    s.to_lowercase()
}

/// PyPI canonical form of `name`.
pub open spec fn normalized(name: Seq<char>) -> Seq<char> {
    unicode_lowercase(collapse_separators(name))
}

/// PyPI canonical form: lowercase, runs of `-_.` collapsed to a single `-`.
pub fn normalize(name: &str) -> (r: String)
    ensures
        r@ == normalized(name@),
{
    let v = chars_of(name);
    let mut out: Vec<char> = Vec::new();
    let mut i: usize = 0;
    while i < v.len()
        invariant
            i <= v@.len(),
            out@ == collapse_separators(v@.take(i as int)),
        decreases v@.len() - i,
    {
        let c = v[i];
        let sep = c == '-' || c == '_' || c == '.';
        let ghost p = v@.take(i as int);
        assert(v@.take(i + 1).drop_last() =~= p);
        assert(v@.take(i + 1).last() == c);
        if sep {
            let prev_sep = i > 0 && (v[i - 1] == '-' || v[i - 1] == '_' || v[i - 1] == '.');
            assert(i > 0 ==> p.last() == v@[i - 1]);
            if !prev_sep {
                out.push('-');
            }
        } else {
            out.push(c);
        }
        i = i + 1;
    }
    assert(v@.take(v@.len() as int) =~= v@);
    let collapsed = string_of(out.as_slice());
    to_lowercase(collapsed.as_str())
}

// ---------------------------------------------------------------------------
// Version keys
// ---------------------------------------------------------------------------

/// The separators of a version string's components.
pub open spec fn is_version_sep(c: char) -> bool {
    c == '.' || c == '+' || c == '!' || c == '-'
}

/// The pieces of `s` between separators (what splitting on `[.+!\-]` yields;
/// always at least one piece).
pub open spec fn version_pieces(s: Seq<char>) -> Seq<Seq<char>>
    decreases s.len(),
{
    if s.len() == 0 {
        seq![seq![]]
    } else {
        let p = version_pieces(s.drop_last());
        if is_version_sep(s.last()) {
            p.push(seq![])
        } else {
            p.update(p.len() - 1, p.last().push(s.last()))
        }
    }
}

pub open spec fn is_ascii_digit(c: char) -> bool {
    '0' <= c && c <= '9'
}

/// The longest prefix of `p` made of ASCII digits.
pub open spec fn lead_digits(p: Seq<char>) -> Seq<char>
    decreases p.len(),
{
    if p.len() == 0 {
        seq![]
    } else {
        let q = lead_digits(p.drop_last());
        if q.len() == p.len() - 1 && is_ascii_digit(p.last()) {
            p
        } else {
            q
        }
    }
}

proof fn lemma_lead_digits_prefix(p: Seq<char>)
    ensures
        lead_digits(p).len() <= p.len(),
        lead_digits(p) == p.subrange(0, lead_digits(p).len() as int),
    decreases p.len(),
{
    if p.len() > 0 {
        lemma_lead_digits_prefix(p.drop_last());
        let q = lead_digits(p.drop_last());
        if !(q.len() == p.len() - 1 && is_ascii_digit(p.last())) {
            assert(q == p.subrange(0, q.len() as int));
        } else {
            assert(p == p.subrange(0, p.len() as int));
        }
    }
}

/// The decimal value of a string of ASCII digits.
pub open spec fn digits_value(d: Seq<char>) -> nat
    decreases d.len(),
{
    if d.len() == 0 {
        0
    } else {
        digits_value(d.drop_last()) * 10 + ((d.last() as u32) - ('0' as u32)) as nat
    }
}

/// The key of one piece: its leading digits as a number; 0 when there are none
/// or when they overflow a `u64` (a failed parse).
pub open spec fn piece_key(p: Seq<char>) -> u64 {
    let d = lead_digits(p);
    if d.len() == 0 || digits_value(d) > u64::MAX {
        0
    } else {
        digits_value(d) as u64
    }
}

/// The comparison key of a version string.
pub open spec fn version_key_of(s: Seq<char>) -> Seq<u64> {
    version_pieces(s).map_values(|p: Seq<char>| piece_key(p))
}

proof fn lemma_version_pieces_nonempty(s: Seq<char>)
    ensures
        version_pieces(s).len() >= 1,
    decreases s.len(),
{
    if s.len() > 0 {
        lemma_version_pieces_nonempty(s.drop_last());
    }
}

/// Best-effort numeric comparison key. Non-numeric segments contribute 0.
pub fn version_key(version: &str) -> (r: Vec<u64>)
    ensures
        r@ == version_key_of(version@),
{
    let v = chars_of(version);
    let mut keys: Vec<u64> = Vec::new();
    // state of the piece being read
    let mut in_lead = true;
    let mut big = false;
    let mut val: u64 = 0;
    let mut has_digit = false;
    let mut i: usize = 0;
    let ghost mut cur: Seq<char> = seq![];
    while i < v.len()
        invariant
            i <= v@.len(),
            version_pieces(v@.take(i as int)).len() == keys@.len() + 1,
            forall|j: int|
                0 <= j < keys@.len() ==> #[trigger] keys@[j] == piece_key(
                    version_pieces(v@.take(i as int))[j],
                ),
            cur == version_pieces(v@.take(i as int)).last(),
            in_lead == (lead_digits(cur) == cur),
            has_digit == (lead_digits(cur).len() > 0),
            big == (digits_value(lead_digits(cur)) > u64::MAX),
            !big ==> val == digits_value(lead_digits(cur)),
        decreases v@.len() - i,
    {
        let c = v[i];
        let ghost pre = v@.take(i as int);
        let ghost post = v@.take(i + 1);
        proof {
            assert(post.drop_last() =~= pre);
            assert(post.last() == c);
            lemma_version_pieces_nonempty(pre);
        }
        proof {
            lemma_lead_digits_prefix(cur);
        }
        if c == '.' || c == '+' || c == '!' || c == '-' {
            let k = if !has_digit || big { 0 } else { val };
            keys.push(k);
            in_lead = true;
            big = false;
            val = 0;
            has_digit = false;
            proof {
                cur = seq![];
                assert(lead_digits(cur) =~= seq![]);
            }
        } else {
            let ghost ncur = cur.push(c);
            proof {
                assert(ncur.drop_last() =~= cur);
            }
            if in_lead && '0' <= c && c <= '9' {
                let d = (c as u32 - '0' as u32) as u64;
                proof {
                    assert(lead_digits(ncur) == ncur);
                    assert(ncur.drop_last() =~= lead_digits(cur));
                    assert(digits_value(ncur) == digits_value(cur) * 10 + d);
                }
                has_digit = true;
                if !big {
                    if val > (u64::MAX - d) / 10 {
                        big = true;
                        assert(val * 10 + d > u64::MAX) by (nonlinear_arith)
                            requires
                                val > (u64::MAX - d) / 10,
                                d < 10,
                        ;
                    } else {
                        assert(val * 10 + d <= u64::MAX) by (nonlinear_arith)
                            requires
                                val <= (u64::MAX - d) / 10,
                                d < 10,
                        ;
                        val = val * 10 + d;
                    }
                } else {
                    assert(digits_value(cur) * 10 + d >= digits_value(cur)) by (nonlinear_arith);
                }
            } else {
                in_lead = false;
                proof {
                    if lead_digits(cur).len() == cur.len() {
                        assert(lead_digits(cur) =~= cur);
                    }
                    assert(lead_digits(ncur) == lead_digits(cur));
                }
            }
            proof {
                cur = ncur;
            }
        }
        i = i + 1;
        proof {
            let pp = version_pieces(pre);
            let qq = version_pieces(post);
            assert forall|j: int| 0 <= j < keys@.len() implies #[trigger] keys@[j] == piece_key(
                qq[j],
            ) by {
                if j < pp.len() - 1 {
                    assert(qq[j] == pp[j]);
                }
            }
        }
    }
    let k = if !has_digit || big { 0 } else { val };
    keys.push(k);
    proof {
        assert(v@.take(v@.len() as int) =~= v@);
        let pp = version_pieces(v@);
        assert(keys@ =~= pp.map_values(|p: Seq<char>| piece_key(p)));
    }
    keys
}

/// Lexicographic "strictly less" on keys (the order of `Vec<u64>`).
pub open spec fn key_lt(a: Seq<u64>, b: Seq<u64>) -> bool
    decreases a.len(),
{
    if a.len() == 0 {
        b.len() > 0
    } else if b.len() == 0 {
        false
    } else if a[0] < b[0] {
        true
    } else if a[0] > b[0] {
        false
    } else {
        key_lt(a.drop_first(), b.drop_first())
    }
}

/// `a < b` for version keys.
pub fn key_less(a: &Vec<u64>, b: &Vec<u64>) -> (r: bool)
    ensures
        r == key_lt(a@, b@),
{
    let mut i: usize = 0;
    assert(a@.skip(0) =~= a@);
    assert(b@.skip(0) =~= b@);
    while i < a.len() && i < b.len() && a[i] == b[i]
        invariant
            i <= a@.len(),
            i <= b@.len(),
            forall|j: int| 0 <= j < i ==> a@[j] == b@[j],
            key_lt(a@, b@) == key_lt(a@.skip(i as int), b@.skip(i as int)),
        decreases a@.len() - i,
    {
        proof {
            assert(a@.skip(i as int).drop_first() =~= a@.skip(i + 1));
            assert(b@.skip(i as int).drop_first() =~= b@.skip(i + 1));
        }
        i = i + 1;
    }
    if i == a.len() {
        i < b.len()
    } else if i == b.len() {
        false
    } else {
        a[i] < b[i]
    }
}

// ---------------------------------------------------------------------------
// Tag granularity
// ---------------------------------------------------------------------------

/// 1 when `s` starts with `v`, else 0.
pub open spec fn v_prefix_len(s: Seq<char>) -> int {
    if s.len() > 0 && s[0] == 'v' {
        1
    } else {
        0
    }
}

/// Number of `\d` characters in the run that starts at `i`.
pub open spec fn digit_run(s: Seq<char>, i: int) -> nat
    decreases s.len() - i,
{
    if 0 <= i < s.len() && unicode_decimal_digit(s[i]) {
        1 + digit_run(s, i + 1)
    } else {
        0
    }
}

pub proof fn lemma_digit_run_bound(s: Seq<char>, i: int)
    requires
        0 <= i <= s.len(),
    ensures
        i + digit_run(s, i) <= s.len(),
    decreases s.len() - i,
{
    if i < s.len() {
        lemma_digit_run_bound(s, i + 1);
    }
}

/// `s` matches `^v?\d+$`: a major-only pin such as `v6` or `6`.
pub open spec fn is_major_only(s: Seq<char>) -> bool {
    let k = v_prefix_len(s);
    s.len() > k && k + digit_run(s, k) == s.len()
}

/// Every character of the `\d` run that starts at `i` is a digit.
proof fn lemma_digit_run_digits(s: Seq<char>, i: int)
    requires
        0 <= i <= s.len(),
    ensures
        forall|j: int| i <= j < i + digit_run(s, i) ==> unicode_decimal_digit(#[trigger] s[j]),
    decreases s.len() - i,
{
    if i < s.len() && unicode_decimal_digit(s[i]) {
        lemma_digit_run_digits(s, i + 1);
    }
}

/// A tail made of digits only is one `\d` run.
proof fn lemma_all_digits(s: Seq<char>, i: int)
    requires
        0 <= i <= s.len(),
        forall|j: int| i <= j < s.len() ==> unicode_decimal_digit(#[trigger] s[j]),
    ensures
        digit_run(s, i) == s.len() - i,
    decreases s.len() - i,
{
    if i < s.len() {
        lemma_all_digits(s, i + 1);
    }
}

/// The first capture of `^v?(\d+)` in `s`, if it matches.
pub open spec fn lead_major(s: Seq<char>) -> Option<Seq<char>> {
    let k = v_prefix_len(s);
    let n = digit_run(s, k);
    if n > 0 {
        Some(s.subrange(k, k + n))
    } else {
        None
    }
}

/// The tag chosen for a pin at `current` when upstream's latest is `latest`.
pub open spec fn desired_tag_of(current: Seq<char>, latest: Seq<char>) -> Seq<char> {
    if is_major_only(current) && lead_major(latest) is Some {
        let prefix = if v_prefix_len(latest) == 1 || v_prefix_len(current) == 1 {
            seq!['v']
        } else {
            seq![]
        };
        prefix + lead_major(latest)->0
    } else {
        latest
    }
}

/// Length of the `\d` run that starts at `i` (exec).
fn digit_run_len(s: &Vec<char>, i: usize) -> (n: usize)
    requires
        i <= s@.len(),
    ensures
        n == digit_run(s@, i as int),
        i + n <= s.len(),
{
    let mut j: usize = i;
    while j < s.len() && is_decimal_digit(s[j])
        invariant
            i <= j <= s@.len(),
            digit_run(s@, i as int) == (j - i) + digit_run(s@, j as int),
        decreases s@.len() - j,
    {
        j = j + 1;
    }
    j - i
}

/// Whether `s` starts with a major number (`^v?\d+`), as a release tag does.
pub fn has_lead_major(s: &str) -> (r: bool)
    ensures
        r == (lead_major(s@) is Some),
{
    let v = chars_of(s);
    let k: usize = if v.len() > 0 && v[0] == 'v' { 1 } else { 0 };
    digit_run_len(&v, k) > 0
}

/// Choose the replacement tag while preserving the existing pin granularity:
/// a major-only pin (`v6`) stays major-only (`v7`); a full pin keeps full precision.
pub fn desired_tag(current_ref: &str, latest: &str) -> (r: String)
    ensures
        r@ == desired_tag_of(current_ref@, latest@),
{
    let cur = chars_of(current_ref);
    let lat = chars_of(latest);
    let ck: usize = if cur.len() > 0 && cur[0] == 'v' { 1 } else { 0 };
    let cn = digit_run_len(&cur, ck);
    let major_only = cur.len() > ck && ck + cn == cur.len();
    if major_only {
        let lk: usize = if lat.len() > 0 && lat[0] == 'v' { 1 } else { 0 };
        let ln = digit_run_len(&lat, lk);
        if ln > 0 {
            let mut out: Vec<char> = Vec::new();
            if lk == 1 || ck == 1 {
                out.push('v');
            }
            let ghost start = out@;
            let mut j: usize = lk;
            while j < lk + ln
                invariant
                    lk <= j <= lk + ln,
                    lk + ln <= lat.len(),
                    out@ == start + lat@.subrange(lk as int, j as int),
                decreases lk + ln - j,
            {
                out.push(lat[j]);
                j = j + 1;
                assert(out@ =~= start + lat@.subrange(lk as int, j as int));
            }
            return string_of(out.as_slice());
        }
    }
    string_of(lat.as_slice())
}

// ---------------------------------------------------------------------------
// Upper-bound relaxation
// ---------------------------------------------------------------------------

/// Number of whitespace characters in the run that starts at `i`.
pub open spec fn ws_run(s: Seq<char>, i: int) -> nat
    decreases s.len() - i,
{
    if 0 <= i < s.len() && unicode_white_space(s[i]) {
        1 + ws_run(s, i + 1)
    } else {
        0
    }
}

/// End of the match of `(\.\d+)*` that starts at `i` (greedy).
pub open spec fn dotted_tail_end(s: Seq<char>, i: int) -> int
    decreases s.len() - i,
{
    if 0 <= i && i + 1 < s.len() && s[i] == '.' && digit_run(s, i + 1) > 0 {
        proof {
            lemma_digit_run_bound(s, i + 1);
        }
        dotted_tail_end(s, i + 1 + digit_run(s, i + 1))
    } else {
        i
    }
}

/// `(<\s*)\d+(?:\.\d+)*` matches at `i`: returns the end of the `<\s*` group
/// and the end of the whole match.
pub open spec fn cap_match_at(s: Seq<char>, i: int) -> Option<(int, int)> {
    if 0 <= i < s.len() && s[i] == '<' {
        let g = i + 1 + ws_run(s, i + 1);
        let n = digit_run(s, g);
        if n > 0 {
            Some((g, dotted_tail_end(s, g + n)))
        } else {
            None
        }
    } else {
        None
    }
}

/// The leftmost position at or after `i` where the cap pattern matches.
pub open spec fn first_cap_match(s: Seq<char>, i: int) -> Option<int>
    decreases s.len() - i,
{
    if i < 0 || i >= s.len() {
        None
    } else if cap_match_at(s, i) is Some {
        Some(i)
    } else {
        first_cap_match(s, i + 1)
    }
}

/// The text with the first cap raised to `<{ceiling}.0.0`.
pub open spec fn relaxed_text(rest: Seq<char>, ceiling: u64) -> Seq<char> {
    match first_cap_match(rest, 0) {
        Some(i) => {
            let (g, e) = cap_match_at(rest, i)->0;
            rest.subrange(0, g) + decimal(ceiling as nat) + seq!['.', '0', '.', '0']
                + rest.subrange(e, rest.len() as int)
        },
        None => rest,
    }
}

/// What `relax_cap` returns: the text with its first cap raised, or `None`
/// when it holds no `<N…` cap.
pub open spec fn relax_cap_of(rest: Seq<char>, ceiling: u64) -> Option<Seq<char>> {
    if first_cap_match(rest, 0) is None {
        None
    } else {
        Some(relaxed_text(rest, ceiling))
    }
}

fn ws_run_len(s: &Vec<char>, i: usize) -> (n: usize)
    requires
        i <= s@.len(),
    ensures
        n == ws_run(s@, i as int),
        i + n <= s.len(),
{
    let mut j: usize = i;
    while j < s.len() && is_white_space(s[j])
        invariant
            i <= j <= s@.len(),
            ws_run(s@, i as int) == (j - i) + ws_run(s@, j as int),
        decreases s@.len() - j,
    {
        j = j + 1;
    }
    j - i
}

fn dotted_tail(s: &Vec<char>, i: usize) -> (e: usize)
    requires
        i <= s@.len(),
    ensures
        e == dotted_tail_end(s@, i as int),
        i <= e <= s@.len(),
{
    let mut j: usize = i;
    loop
        invariant
            i <= j <= s@.len(),
            dotted_tail_end(s@, i as int) == dotted_tail_end(s@, j as int),
        decreases s@.len() - j,
    {
        if j < s.len() && s[j] == '.' && j + 1 < s.len() {
            let n = digit_run_len(s, j + 1);
            if n > 0 {
                j = j + 1 + n;
                continue;
            }
        }
        return j;
    }
}

/// Whether `c` occurs in `s` (exec).
fn has_char(s: &Vec<char>, c: char) -> (r: bool)
    ensures
        r == s@.contains(c),
{
    let mut i: usize = 0;
    while i < s.len()
        invariant
            i <= s@.len(),
            forall|j: int| 0 <= j < i ==> s@[j] != c,
        decreases s@.len() - i,
    {
        if s[i] == c {
            return true;
        }
        i = i + 1;
    }
    false
}

/// The leftmost match of the cap pattern: its start, the end of its `<\s*`
/// group and its end.
fn find_cap(s: &Vec<char>) -> (r: Option<(usize, usize, usize)>)
    ensures
        match r {
            Some((i, g, e)) => first_cap_match(s@, 0) == Some(i as int) && cap_match_at(s@, i as int)
                == Some((g as int, e as int)) && g <= e <= s@.len(),
            None => first_cap_match(s@, 0) is None,
        },
{
    let mut i: usize = 0;
    while i < s.len()
        invariant
            i <= s@.len(),
            first_cap_match(s@, 0) == first_cap_match(s@, i as int),
        decreases s@.len() - i,
    {
        if s[i] == '<' {
            let g = i + 1 + ws_run_len(s, i + 1);
            let n = digit_run_len(s, g);
            if n > 0 {
                let e = dotted_tail(s, g + n);
                return Some((i, g, e));
            }
        }
        i = i + 1;
    }
    None
}

/// Raise a `<N…` cap inside a requirement remainder to `<{ceiling}.0.0`.
/// Returns the rewritten remainder, or `None` when there is no `<` cap.
pub fn relax_cap(rest: &str, ceiling: u64) -> (r: Option<String>)
    ensures
        match r {
            Some(t) => relax_cap_of(rest@, ceiling) == Some(t@),
            None => relax_cap_of(rest@, ceiling) is None,
        },
{
    let s = chars_of(rest);
    if !has_char(&s, '<') {
        proof {
            lemma_no_cap_without_lt(s@, 0);
        }
        return None;
    }
    let found = find_cap(&s);
    let replaced: Vec<char> = match found {
        None => {
            return None;
        }
        Some((i0, g, e)) => {
            let mut out: Vec<char> = Vec::new();
            let mut j: usize = 0;
            while j < g
                invariant
                    j <= g,
                    g <= s@.len(),
                    out@ == s@.subrange(0, j as int),
                decreases g - j,
            {
                out.push(s[j]);
                j = j + 1;
                assert(out@ =~= s@.subrange(0, j as int));
            }
            let digits = decimal_string(ceiling);
            let ghost mid = out@;
            let mut k: usize = 0;
            while k < digits.len()
                invariant
                    k <= digits@.len(),
                    out@ == mid + digits@.subrange(0, k as int),
                decreases digits@.len() - k,
            {
                out.push(digits[k]);
                k = k + 1;
                assert(out@ =~= mid + digits@.subrange(0, k as int));
            }
            out.push('.');
            out.push('0');
            out.push('.');
            out.push('0');
            let ghost head = out@;
            let mut j: usize = e;
            while j < s.len()
                invariant
                    e <= j <= s@.len(),
                    out@ == head + s@.subrange(e as int, j as int),
                decreases s@.len() - j,
            {
                out.push(s[j]);
                j = j + 1;
                assert(out@ =~= head + s@.subrange(e as int, j as int));
            }
            proof {
                assert(digits@.subrange(0, digits@.len() as int) =~= digits@);
                assert(out@ =~= relaxed_text(s@, ceiling));
            }
            out
        }
    };
    Some(string_of(replaced.as_slice()))
}

/// Without a `<` there is no cap.
proof fn lemma_no_cap_without_lt(s: Seq<char>, i: int)
    requires
        !s.contains('<'),
        0 <= i,
    ensures
        first_cap_match(s, i) is None,
    decreases s.len() - i,
{
    if i < s.len() {
        assert(s[i] != '<');
        lemma_no_cap_without_lt(s, i + 1);
    }
}

/// Pin granularity is kept: a major-only pin (`v6`, `6`) is answered with a
/// major-only pin whenever upstream's latest tag starts with a major number,
/// and any other pin is answered with upstream's latest tag unchanged.
pub proof fn law_desired_tag_keeps_granularity(current: Seq<char>, latest: Seq<char>)
    ensures
        is_major_only(current) && lead_major(latest) is Some ==> is_major_only(
            desired_tag_of(current, latest),
        ),
        !is_major_only(current) ==> desired_tag_of(current, latest) == latest,
{
    if is_major_only(current) && lead_major(latest) is Some {
        let k = v_prefix_len(latest);
        let n = digit_run(latest, k);
        lemma_digit_run_bound(latest, k);
        lemma_digit_run_digits(latest, k);
        let d = latest.subrange(k, k + n);
        let r = desired_tag_of(current, latest);
        if v_prefix_len(latest) == 1 || v_prefix_len(current) == 1 {
            assert(r == seq!['v'] + d);
            assert(v_prefix_len(r) == 1);
            assert forall|j: int| 1 <= j < r.len() implies unicode_decimal_digit(#[trigger] r[j]) by {
                assert(r[j] == latest[k + j - 1]);
            }
            lemma_all_digits(r, 1);
        } else {
            assert(r == d);
            assert(r[0] == latest[0]);
            assert(v_prefix_len(r) == 0);
            assert forall|j: int| 0 <= j < r.len() implies unicode_decimal_digit(#[trigger] r[j]) by {
                assert(r[j] == latest[k + j]);
            }
            lemma_all_digits(r, 0);
        }
    }
}

/// Choosing a tag is stable: a pin already moved to the chosen tag is left
/// on it when the same latest tag is offered again.
pub proof fn law_desired_tag_is_stable(current: Seq<char>, latest: Seq<char>)
    ensures
        desired_tag_of(desired_tag_of(current, latest), latest) == desired_tag_of(current, latest),
{
    let r = desired_tag_of(current, latest);
    law_desired_tag_keeps_granularity(current, latest);
    if is_major_only(current) && lead_major(latest) is Some {
        let k = v_prefix_len(latest);
        let n = digit_run(latest, k);
        lemma_digit_run_bound(latest, k);
        if v_prefix_len(latest) == 0 {
            if v_prefix_len(current) != 1 {
                assert(r[0] == latest[0]);
            }
        }
        assert(v_prefix_len(r) == 1 <==> (v_prefix_len(latest) == 1 || v_prefix_len(current) == 1));
    } else {
        assert(r == latest);
        if is_major_only(latest) && lead_major(latest) is Some {
            let k = v_prefix_len(latest);
            let n = digit_run(latest, k);
            assert(k + n == latest.len());
            if k == 1 {
                assert(seq!['v'] + latest.subrange(1, latest.len() as int) =~= latest);
            } else {
                assert(latest.subrange(0, latest.len() as int) =~= latest);
            }
        }
    }
}

/// The version-key order is transitive.
pub proof fn law_key_order_transitive(a: Seq<u64>, b: Seq<u64>, c: Seq<u64>)
    requires
        key_lt(a, b),
        key_lt(b, c),
    ensures
        key_lt(a, c),
    decreases a.len(),
{
    if a.len() > 0 && a[0] == b[0] && b[0] == c[0] {
        law_key_order_transitive(a.drop_first(), b.drop_first(), c.drop_first());
    }
}

/// No key is below itself.
pub proof fn law_key_order_irreflexive(a: Seq<u64>)
    ensures
        !key_lt(a, a),
    decreases a.len(),
{
    if a.len() > 0 {
        law_key_order_irreflexive(a.drop_first());
    }
}

} // verus!
