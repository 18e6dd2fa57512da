//! Character classes and maximal runs: the building blocks of the line
//! grammars that the updaters recognise (`uses:` pins, `FROM` lines,
//! requirement specifiers).

use vstd::prelude::*;

use crate::text::{is_white_space, unicode_white_space};

verus! {

/// `[A-Za-z0-9]`
pub const ALNUM: u8 = 0;
/// `[A-Za-z0-9-]`
pub const ALNUM_DASH: u8 = 1;
/// `[A-Za-z0-9._-]`
pub const ALNUM_DOT_DASH: u8 = 2;
/// `[A-Za-z0-9._/-]`
pub const ALNUM_DOT_SLASH_DASH: u8 = 3;
/// `[0-9a-f]`
pub const LOWER_HEX: u8 = 4;
/// `[0-9A-Za-z.+!-]`
pub const VERSION_CHARS: u8 = 5;
/// `[^"'\n]`
pub const NOT_QUOTE_OR_NEWLINE: u8 = 6;
/// `[0-9]`
pub const DIGIT: u8 = 7;
/// `[ \t]`
pub const BLANK: u8 = 8;
/// `[^\]]`
pub const NOT_CLOSE_BRACKET: u8 = 9;
/// `[0-9.]`
pub const DIGIT_OR_DOT: u8 = 10;

pub open spec fn is_alnum(c: char) -> bool {
    ('a' <= c && c <= 'z') || ('A' <= c && c <= 'Z') || ('0' <= c && c <= '9')
}

/// Membership of `c` in the class numbered `k`.
pub open spec fn in_class(c: char, k: u8) -> bool {
    if k == ALNUM {
        is_alnum(c)
    } else if k == ALNUM_DASH {
        is_alnum(c) || c == '-'
    } else if k == ALNUM_DOT_DASH {
        is_alnum(c) || c == '.' || c == '_' || c == '-'
    } else if k == ALNUM_DOT_SLASH_DASH {
        is_alnum(c) || c == '.' || c == '_' || c == '/' || c == '-'
    } else if k == LOWER_HEX {
        ('0' <= c && c <= '9') || ('a' <= c && c <= 'f')
    } else if k == VERSION_CHARS {
        is_alnum(c) || c == '.' || c == '+' || c == '!' || c == '-'
    } else if k == NOT_QUOTE_OR_NEWLINE {
        c != '"' && c != '\'' && c != '\n'
    } else if k == DIGIT {
        '0' <= c && c <= '9'
    } else if k == BLANK {
        c == ' ' || c == '\t'
    } else if k == NOT_CLOSE_BRACKET {
        c != ']'
    } else if k == DIGIT_OR_DOT {
        ('0' <= c && c <= '9') || c == '.'
    } else {
        false
    }
}

/// Membership of `c` in the class numbered `k` (exec).
pub fn class_has(c: char, k: u8) -> (r: bool)
    ensures
        r == in_class(c, k),
{
    let alnum = ('a' <= c && c <= 'z') || ('A' <= c && c <= 'Z') || ('0' <= c && c <= '9');
    if k == ALNUM {
        alnum
    } else if k == ALNUM_DASH {
        alnum || c == '-'
    } else if k == ALNUM_DOT_DASH {
        alnum || c == '.' || c == '_' || c == '-'
    } else if k == ALNUM_DOT_SLASH_DASH {
        alnum || c == '.' || c == '_' || c == '/' || c == '-'
    } else if k == LOWER_HEX {
        ('0' <= c && c <= '9') || ('a' <= c && c <= 'f')
    } else if k == VERSION_CHARS {
        alnum || c == '.' || c == '+' || c == '!' || c == '-'
    } else if k == NOT_QUOTE_OR_NEWLINE {
        c != '"' && c != '\'' && c != '\n'
    } else if k == DIGIT {
        '0' <= c && c <= '9'
    } else if k == BLANK {
        c == ' ' || c == '\t'
    } else if k == NOT_CLOSE_BRACKET {
        c != ']'
    } else if k == DIGIT_OR_DOT {
        ('0' <= c && c <= '9') || c == '.'
    } else {
        false
    }
}

/// Length of the maximal run of class-`k` characters that starts at `i`.
pub open spec fn class_run(s: Seq<char>, i: int, k: u8) -> nat
    decreases s.len() - i,
{
    if 0 <= i < s.len() && in_class(s[i], k) {
        1 + class_run(s, i + 1, k)
    } else {
        0
    }
}

/// Length of the maximal run of whitespace that starts at `i`.
pub open spec fn space_run(s: Seq<char>, i: int) -> nat
    decreases s.len() - i,
{
    if 0 <= i < s.len() && unicode_white_space(s[i]) {
        1 + space_run(s, i + 1)
    } else {
        0
    }
}

/// Length of the maximal run of non-whitespace that starts at `i`.
pub open spec fn nonspace_run(s: Seq<char>, i: int) -> nat
    decreases s.len() - i,
{
    if 0 <= i < s.len() && !unicode_white_space(s[i]) {
        1 + nonspace_run(s, i + 1)
    } else {
        0
    }
}

pub proof fn lemma_class_run(s: Seq<char>, i: int, k: u8)
    requires
        0 <= i <= s.len(),
    ensures
        i + class_run(s, i, k) <= s.len(),
        forall|j: int| i <= j < i + class_run(s, i, k) ==> in_class(#[trigger] s[j], k),
        i + class_run(s, i, k) < s.len() ==> !in_class(s[i + class_run(s, i, k)], k),
    decreases s.len() - i,
{
    if i < s.len() {
        lemma_class_run(s, i + 1, k);
    }
}

pub proof fn lemma_space_run(s: Seq<char>, i: int)
    requires
        0 <= i <= s.len(),
    ensures
        i + space_run(s, i) <= s.len(),
        forall|j: int| i <= j < i + space_run(s, i) ==> unicode_white_space(#[trigger] s[j]),
        i + space_run(s, i) < s.len() ==> !unicode_white_space(s[i + space_run(s, i)]),
    decreases s.len() - i,
{
    if i < s.len() {
        lemma_space_run(s, i + 1);
    }
}

pub proof fn lemma_nonspace_run(s: Seq<char>, i: int)
    requires
        0 <= i <= s.len(),
    ensures
        i + nonspace_run(s, i) <= s.len(),
        forall|j: int| i <= j < i + nonspace_run(s, i) ==> !unicode_white_space(#[trigger] s[j]),
        i + nonspace_run(s, i) < s.len() ==> unicode_white_space(s[i + nonspace_run(s, i)]),
    decreases s.len() - i,
{
    if i < s.len() {
        lemma_nonspace_run(s, i + 1);
    }
}

/// Length of the class-`k` run at `i` (exec).
pub fn class_run_len(s: &[char], i: usize, k: u8) -> (n: usize)
    requires
        i <= s@.len(),
    ensures
        n == class_run(s@, i as int, k),
        i + n <= s.len(),
{
    let mut j: usize = i;
    while j < s.len() && class_has(s[j], k)
        invariant
            i <= j <= s.len(),
            class_run(s@, i as int, k) == (j - i) + class_run(s@, j as int, k),
        decreases s@.len() - j,
    {
        j = j + 1;
    }
    j - i
}

/// Length of the whitespace run at `i` (exec).
pub fn space_run_len(s: &[char], i: usize) -> (n: usize)
    requires
        i <= s@.len(),
    ensures
        n == space_run(s@, i as int),
        i + n <= s.len(),
{
    let mut j: usize = i;
    while j < s.len() && is_white_space(s[j])
        invariant
            i <= j <= s.len(),
            space_run(s@, i as int) == (j - i) + space_run(s@, j as int),
        decreases s@.len() - j,
    {
        j = j + 1;
    }
    j - i
}

/// Length of the non-whitespace run at `i` (exec).
pub fn nonspace_run_len(s: &[char], i: usize) -> (n: usize)
    requires
        i <= s@.len(),
    ensures
        n == nonspace_run(s@, i as int),
        i + n <= s.len(),
{
    let mut j: usize = i;
    while j < s.len() && !is_white_space(s[j])
        invariant
            i <= j <= s.len(),
            nonspace_run(s@, i as int) == (j - i) + nonspace_run(s@, j as int),
        decreases s@.len() - j,
    {
        j = j + 1;
    }
    j - i
}

/// Appends `s[from..to]` to `out`.
pub fn push_range(out: &mut Vec<char>, s: &[char], from: usize, to: usize)
    requires
        from <= to <= s@.len(),
    ensures
        final(out)@ == old(out)@ + s@.subrange(from as int, to as int),
{
    let ghost start = out@;
    let mut j: usize = from;
    while j < to
        invariant
            from <= j <= to,
            to <= s@.len(),
            out@ == start + s@.subrange(from as int, j as int),
        decreases to - j,
    {
        out.push(s[j]);
        j = j + 1;
        assert(out@ =~= start + s@.subrange(from as int, j as int));
    }
}

/// Appends the characters of `t` to `out`.
pub fn push_str(out: &mut Vec<char>, t: &str)
    ensures
        final(out)@ == old(out)@ + t@,
{
    let v = crate::text::chars_of(t);
    push_range(out, v.as_slice(), 0, v.len());
    assert(v@.subrange(0, v@.len() as int) =~= v@);
}

} // verus!
