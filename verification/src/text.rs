//! Character-level helpers shared by the parsers: conversions between `str`
//! and `Vec<char>`, Unicode whitespace, trimming, substring search and
//! decimal rendering of integers.

use vstd::prelude::*;

verus! {

broadcast use vstd::string::group_string_axioms;

/// The characters of `s`, in order.
pub fn chars_of(s: &str) -> (r: Vec<char>)
    ensures
        r@ == s@,
{
    let mut out: Vec<char> = Vec::new();
    let mut it = s.chars();
    let ghost all = s@;
    loop
        invariant
            vstd::std_specs::iter::IteratorSpec::obeys_prophetic_iter_laws(&it),
            all == s@,
            out@ + vstd::std_specs::iter::IteratorSpec::remaining(&it) == all,
            vstd::std_specs::iter::IteratorSpec::decrease(&it) is Some,
        decreases vstd::std_specs::iter::IteratorSpec::decrease(&it)->0,
    {
        let ghost before = vstd::std_specs::iter::IteratorSpec::remaining(&it);
        match it.next() {
            Some(c) => {
                assert(before.len() > 0);
                assert(out@.push(c) + vstd::std_specs::iter::IteratorSpec::remaining(&it) =~= out@ + before);
                out.push(c);
            },
            None => {
                assert(before.len() == 0);
                assert(out@ =~= all);
                return out;
            },
        }
    }
}

/// `String::push`: appends one character.
#[verifier::external_body]
pub fn string_push(s: &mut String, c: char)
    ensures
        final(s)@ == old(s)@.push(c),
{
    s.push(c);
}

/// The string made of the characters of `v`.
pub fn string_of(v: &[char]) -> (r: String)
    ensures
        r@ == v@,
{
    let mut out = String::new();
    let mut i: usize = 0;
    while i < v.len()
        invariant
            i <= v@.len(),
            out@ == v@.subrange(0, i as int),
        decreases v@.len() - i,
    {
        string_push(&mut out, v[i]);
        i = i + 1;
        assert(out@ =~= v@.subrange(0, i as int));
    }
    assert(v@.subrange(0, v@.len() as int) =~= v@);
    out
}

/// Whether `c` has the Unicode `White_Space` property (what `char::is_whitespace`
/// reports, and what the regex class `\s` matches): tab through carriage
/// return, space, next line, no-break space, ogham space mark, the spaces
/// U+2000 to U+200A, line and paragraph separators, narrow no-break space,
/// medium mathematical space and ideographic space.
pub open spec fn unicode_white_space(c: char) -> bool {
    let u = c as u32;
    ||| 0x09 <= u && u <= 0x0D
    ||| u == 0x20
    ||| u == 0x85
    ||| u == 0xA0
    ||| u == 0x1680
    ||| 0x2000 <= u && u <= 0x200A
    ||| u == 0x2028
    ||| u == 0x2029
    ||| u == 0x202F
    ||| u == 0x205F
    ||| u == 0x3000
}

/// Whether `c` has the Unicode `White_Space` property, as
/// `char::is_whitespace` reports it.
pub fn is_white_space(c: char) -> (r: bool)
    ensures
        r == unicode_white_space(c),
        (c as u32) < 128 ==> (r <==> (c == ' ' || ('\t' <= c && c <= '\r'))),
{
    let u = c as u32;
    (0x09 <= u && u <= 0x0D) || u == 0x20 || u == 0x85 || u == 0xA0 || u == 0x1680 || (0x2000 <= u
        && u <= 0x200A) || u == 0x2028 || u == 0x2029 || u == 0x202F || u == 0x205F || u == 0x3000
}

/// Whether `c` is in the Unicode general category `Nd` (what the regex class
/// `\d` matches).
pub uninterp spec fn unicode_decimal_digit(c: char) -> bool;

/// Whether `c` is a Unicode word character (what the regex class `\w` matches:
/// `Alphabetic`, marks, `Nd`, `Pc` and `Join_Control`).
pub uninterp spec fn unicode_word_char(c: char) -> bool;

/// Asks the `regex` crate (`Regex::new` and `Regex::is_match`) whether `c`
/// belongs to the class `\d`. The crate documents that class as `\p{Nd}`;
/// among ASCII characters exactly `0`..`9` are in it.
#[verifier::external_body]
pub fn is_decimal_digit(c: char) -> (r: bool)
    ensures
        r == unicode_decimal_digit(c),
        (c as u32) < 128 ==> (r <==> ('0' <= c && c <= '9')),
{
    let mut buf = [0u8; 4];
    match regex::Regex::new(r"\d") {
        Ok(re) => re.is_match(c.encode_utf8(&mut buf)),
        Err(_) => false,
    }
}

/// Asks the `regex` crate (`Regex::new` and `Regex::is_match`) whether `c`
/// belongs to the class `\w`. The crate documents that class as
/// `\p{Alphabetic} + \p{M} + \d + \p{Pc} + \p{Join_Control}`; among ASCII
/// characters exactly the letters, the digits and `_` are in it.
#[verifier::external_body]
pub fn is_word_char(c: char) -> (r: bool)
    ensures
        r == unicode_word_char(c),
        (c as u32) < 128 ==> (r <==> (('a' <= c && c <= 'z') || ('A' <= c && c <= 'Z') || ('0'
            <= c && c <= '9') || c == '_')),
{
    let mut buf = [0u8; 4];
    match regex::Regex::new(r"\w") {
        Ok(re) => re.is_match(c.encode_utf8(&mut buf)),
        Err(_) => false,
    }
}

/// Length of the longest run of whitespace at the front of `s`.
pub open spec fn lead_ws(s: Seq<char>) -> nat
    decreases s.len(),
{
    if s.len() > 0 && unicode_white_space(s[0]) {
        1 + lead_ws(s.drop_first())
    } else {
        0
    }
}

/// Length of the longest run of whitespace at the back of `s`.
pub open spec fn trail_ws(s: Seq<char>) -> nat
    decreases s.len(),
{
    if s.len() > 0 && unicode_white_space(s.last()) {
        1 + trail_ws(s.drop_last())
    } else {
        0
    }
}

/// `s` without leading and trailing Unicode whitespace (what `str::trim` gives).
pub open spec fn trimmed(s: Seq<char>) -> Seq<char> {
    let front = s.skip(lead_ws(s) as int);
    front.take(front.len() - trail_ws(front))
}

proof fn lemma_lead_ws(s: Seq<char>, i: int)
    requires
        0 <= i <= s.len(),
        forall|j: int| 0 <= j < i ==> unicode_white_space(#[trigger] s[j]),
        i == s.len() || !unicode_white_space(s[i]),
    ensures
        lead_ws(s) == i,
    decreases i,
{
    if i > 0 {
        lemma_lead_ws(s.drop_first(), i - 1);
    }
}

proof fn lemma_trail_ws(s: Seq<char>, k: int)
    requires
        0 <= k <= s.len(),
        forall|j: int| s.len() - k <= j < s.len() ==> unicode_white_space(#[trigger] s[j]),
        k == s.len() || !unicode_white_space(s[s.len() - k - 1]),
    ensures
        trail_ws(s) == k,
    decreases k,
{
    if k > 0 {
        lemma_trail_ws(s.drop_last(), k - 1);
    }
}

/// `str::trim`: `s` without leading and trailing whitespace.
pub fn trim(s: &str) -> (r: String)
    ensures
        r@ == trimmed(s@),
{
    let v = chars_of(s);
    let n = v.len();
    let mut a: usize = 0;
    while a < n && is_white_space(v[a])
        invariant
            a <= n,
            n == v@.len(),
            forall|j: int| 0 <= j < a ==> unicode_white_space(#[trigger] v@[j]),
        decreases n - a,
    {
        a = a + 1;
    }
    proof {
        lemma_lead_ws(v@, a as int);
    }
    let mut b: usize = n;
    while b > a && is_white_space(v[b - 1])
        invariant
            a <= b <= n,
            n == v@.len(),
            forall|j: int| b <= j < n ==> unicode_white_space(#[trigger] v@[j]),
        decreases b,
    {
        b = b - 1;
    }
    let ghost front = v@.skip(a as int);
    proof {
        assert forall|j: int| front.len() - (n - b) <= j < front.len() implies unicode_white_space(
            #[trigger] front[j],
        ) by {
            assert(front[j] == v@[j + a]);
        }
        if b > a {
            assert(front[front.len() - (n - b) - 1] == v@[b - 1]);
        }
        lemma_trail_ws(front, (n - b) as int);
        assert(front.take(front.len() - (n - b)) =~= v@.subrange(a as int, b as int));
    }
    string_of(&v.as_slice()[a..b])
}

/// Whether `needle` occurs in `s` starting at position `i`.
pub open spec fn occurs_at(s: Seq<char>, needle: Seq<char>, i: int) -> bool {
    0 <= i && i + needle.len() <= s.len() && s.subrange(i, i + needle.len()) == needle
}

/// Whether `needle` occurs anywhere in `s`.
pub open spec fn seq_contains(s: Seq<char>, needle: Seq<char>) -> bool {
    exists|i: int| occurs_at(s, needle, i)
}

/// Whether `needle` occurs in `s` at position `i` (exec).
pub fn matches_at(s: &[char], needle: &[char], i: usize) -> (r: bool)
    ensures
        r == occurs_at(s@, needle@, i as int),
{
    if i > s.len() || needle.len() > s.len() - i {
        return false;
    }
    let mut k: usize = 0;
    while k < needle.len()
        invariant
            k <= needle.len(),
            i + needle.len() <= s.len(),
            forall|j: int| 0 <= j < k ==> s@[i + j] == needle@[j],
        decreases needle@.len() - k,
    {
        if s[i + k] != needle[k] {
            assert(s@.subrange(i as int, i + needle@.len())[k as int] != needle@[k as int]);
            return false;
        }
        k = k + 1;
    }
    assert(s@.subrange(i as int, i + needle@.len()) =~= needle@);
    true
}

/// `str::contains` with a string pattern.
pub fn contains(s: &str, needle: &str) -> (r: bool)
    ensures
        r == seq_contains(s@, needle@),
{
    let hs = chars_of(s);
    let nd = chars_of(needle);
    let mut i: usize = 0;
    loop
        invariant
            hs@ == s@,
            nd@ == needle@,
            i <= hs.len(),
            forall|j: int| 0 <= j < i ==> !occurs_at(s@, needle@, j),
        ensures
            forall|j: int| 0 <= j <= hs@.len() ==> !occurs_at(s@, needle@, j),
        decreases hs@.len() - i,
    {
        if matches_at(hs.as_slice(), nd.as_slice(), i) {
            return true;
        }
        if i == hs.len() {
            break;
        }
        i = i + 1;
    }
    proof {
        assert forall|j: int| !occurs_at(s@, needle@, j) by {
            if 0 <= j && j <= hs@.len() {
            }
        }
    }
    false
}

/// Decimal digit character for `d < 10`.
pub open spec fn digit_char(d: nat) -> char {
    if d == 0 { '0' }
    else if d == 1 { '1' }
    else if d == 2 { '2' }
    else if d == 3 { '3' }
    else if d == 4 { '4' }
    else if d == 5 { '5' }
    else if d == 6 { '6' }
    else if d == 7 { '7' }
    else if d == 8 { '8' }
    else { '9' }
}

/// Decimal rendering of `n` without leading zeros (`"0"` for zero).
pub open spec fn decimal(n: nat) -> Seq<char>
    decreases n,
{
    if n < 10 {
        seq![digit_char(n)]
    } else {
        decimal(n / 10).push(digit_char(n % 10))
    }
}

fn digit_of(d: u64) -> (c: char)
    requires
        d < 10,
    ensures
        c == digit_char(d as nat),
{
    if d == 0 { '0' }
    else if d == 1 { '1' }
    else if d == 2 { '2' }
    else if d == 3 { '3' }
    else if d == 4 { '4' }
    else if d == 5 { '5' }
    else if d == 6 { '6' }
    else if d == 7 { '7' }
    else if d == 8 { '8' }
    else { '9' }
}

/// Decimal rendering of `n` (what `n.to_string()` gives for an unsigned integer).
pub fn decimal_string(n: u64) -> (r: Vec<char>)
    ensures
        r@ == decimal(n as nat),
    decreases n,
{
    if n < 10 {
        let mut v = Vec::new();
        v.push(digit_of(n));
        v
    } else {
        let mut v = decimal_string(n / 10);
        v.push(digit_of(n % 10));
        v
    }
}

} // verus!

verus! {

/// `a` followed by `b`.
pub fn concat(a: &str, b: &str) -> (r: String)
    ensures
        r@ == a@ + b@,
{
    let mut v = chars_of(a);
    let w = chars_of(b);
    let mut i: usize = 0;
    let ghost start = v@;
    while i < w.len()
        invariant
            i <= w@.len(),
            v@ == start + w@.subrange(0, i as int),
        decreases w@.len() - i,
    {
        v.push(w[i]);
        i = i + 1;
        assert(v@ =~= start + w@.subrange(0, i as int));
    }
    assert(w@.subrange(0, w@.len() as int) =~= w@);
    string_of(v.as_slice())
}

/// `parts` with `sep` between each two.
pub open spec fn joined_with(parts: Seq<Seq<char>>, sep: Seq<char>) -> Seq<char>
    decreases parts.len(),
{
    if parts.len() == 0 {
        seq![]
    } else if parts.len() == 1 {
        parts[0]
    } else {
        joined_with(parts.drop_last(), sep) + sep + parts.last()
    }
}

/// The views of a sequence of strings.
pub open spec fn views_of(v: Seq<String>) -> Seq<Seq<char>> {
    v.map_values(|s: String| s@)
}

/// The strings of `parts` with `sep` between each two.
pub fn join(parts: &Vec<String>, sep: &str) -> (r: String)
    ensures
        r@ == joined_with(views_of(parts@), sep@),
{
    let mut out = String::new();
    let mut i: usize = 0;
    while i < parts.len()
        invariant
            i <= parts@.len(),
            out@ == joined_with(views_of(parts@.subrange(0, i as int)), sep@),
        decreases parts@.len() - i,
    {
        let ghost a = parts@.subrange(0, i + 1);
        proof {
            assert(a.drop_last() =~= parts@.subrange(0, i as int));
            assert(views_of(a).drop_last() =~= views_of(parts@.subrange(0, i as int)));
            assert(views_of(a).len() == i + 1);
            assert(views_of(a).last() == parts@[i as int]@);
        }
        if i == 0 {
            out = parts[0].clone();
            assert(views_of(a) =~= seq![parts@[0]@]);
        } else {
            let t = concat(out.as_str(), sep);
            out = concat(t.as_str(), parts[i].as_str());
        }
        i = i + 1;
        assert(a == parts@.subrange(0, i as int));
    }
    assert(parts@.subrange(0, parts@.len() as int) =~= parts@);
    out
}

/// `s` followed by spaces up to `width` characters (what `{:<width}` gives).
pub open spec fn padded(s: Seq<char>, width: nat) -> Seq<char> {
    if s.len() >= width {
        s
    } else {
        s + Seq::new((width - s.len()) as nat, |i: int| ' ')
    }
}

/// `s` left-aligned in a field of `width` characters.
pub fn pad_right(s: &str, width: usize) -> (r: String)
    ensures
        r@ == padded(s@, width as nat),
{
    let mut v = chars_of(s);
    let ghost start = v@;
    let n = v.len();
    if n >= width {
        return string_of(v.as_slice());
    }
    let mut k: usize = n;
    while k < width
        invariant
            n <= k <= width,
            n == start.len(),
            v@ == start + Seq::new((k - n) as nat, |i: int| ' '),
        decreases width - k,
    {
        v.push(' ');
        k = k + 1;
        assert(v@ =~= start + Seq::new((k - n) as nat, |i: int| ' '));
    }
    string_of(v.as_slice())
}

/// How `{}` shows a `bool`.
pub open spec fn bool_text(b: bool) -> Seq<char> {
    if b {
        "true"@
    } else {
        "false"@
    }
}

/// `n` in decimal, as a string.
pub fn decimal_text(n: u64) -> (r: String)
    ensures
        r@ == decimal(n as nat),
{
    let v = decimal_string(n);
    string_of(v.as_slice())
}

} // verus!
