//! Character classification and text scanning.
//!
//! The spec functions here give the mathematical meaning of whitespace
//! trimming, decimal digit sequences and substring search, and the
//! executable functions compute exactly those values.

use vstd::prelude::*;

verus! {

/// A whitespace character, for the purpose of trimming: the ASCII
/// space, tab, line feed, carriage return, vertical tab and form feed.
pub open spec fn is_space(c: char) -> bool {
    c == ' ' || c == '\t' || c == '\n' || c == '\r' || c == '\u{b}' || c == '\u{c}'
}

/// A decimal digit `'0'..='9'`.
pub open spec fn is_digit(c: char) -> bool {
    48 <= c as u32 && c as u32 <= 57
}

/// The numeric value of a decimal digit character.
pub open spec fn digit_val(c: char) -> nat {
    (c as u32 - 48) as nat
}

/// A non-empty sequence consisting only of decimal digits.
pub open spec fn is_digits(s: Seq<char>) -> bool {
    s.len() > 0 && forall|i: int| 0 <= i < s.len() ==> is_digit(#[trigger] s[i])
}

/// The numeric value of a sequence of decimal digits, most significant first.
pub open spec fn digits_val(s: Seq<char>) -> nat
    decreases s.len(),
{
    if s.len() == 0 {
        0
    } else {
        digits_val(s.drop_last()) * 10 + digit_val(s.last())
    }
}

/// The first index at or after `i` that holds a character other than
/// whitespace, or `s.len()` when only whitespace follows.
pub open spec fn ltrim_idx(s: Seq<char>, i: int) -> int
    decreases s.len() - i,
{
    if !(0 <= i < s.len()) {
        s.len() as int
    } else if is_space(s[i]) {
        ltrim_idx(s, i + 1)
    } else {
        i
    }
}

/// The end of the text once trailing whitespace is dropped, scanning
/// left from `i`: the least `j` such that every character in `[j, i)`
/// is whitespace.
pub open spec fn rtrim_idx(s: Seq<char>, i: int) -> int
    decreases i,
{
    if i <= 0 {
        0
    } else if 0 <= i - 1 < s.len() && is_space(s[i - 1]) {
        rtrim_idx(s, i - 1)
    } else {
        i
    }
}

/// `s` with leading and trailing whitespace removed.
pub open spec fn trim(s: Seq<char>) -> Seq<char> {
    let lo = ltrim_idx(s, 0);
    let hi = rtrim_idx(s, s.len() as int);
    if lo <= hi {
        s.subrange(lo, hi)
    } else {
        Seq::empty()
    }
}

/// The digit character whose value is `d`, for `d` between 0 and 9.
pub open spec fn digit_of(d: int) -> char {
    if d == 0 {
        '0'
    } else if d == 1 {
        '1'
    } else if d == 2 {
        '2'
    } else if d == 3 {
        '3'
    } else if d == 4 {
        '4'
    } else if d == 5 {
        '5'
    } else if d == 6 {
        '6'
    } else if d == 7 {
        '7'
    } else if d == 8 {
        '8'
    } else {
        '9'
    }
}

/// A digit character is a digit carrying its own value, and is neither
/// whitespace, a separator, nor a sign.
pub proof fn lemma_digit_of(d: int)
    requires
        0 <= d <= 9,
    ensures
        is_digit(digit_of(d)),
        digit_val(digit_of(d)) == d,
        !is_space(digit_of(d)),
        digit_of(d) != ',',
        digit_of(d) != ':',
        digit_of(d) != '+',
        digit_of(d) != '-',
        digit_of(d) != ' ',
        digit_of(d) != '>',
{
}

/// `s` without one leading `'+'` sign, when it has one.
pub open spec fn strip_plus(s: Seq<char>) -> Seq<char> {
    if s.len() > 0 && s[0] == '+' {
        s.drop_first()
    } else {
        s
    }
}

/// The first index of `c` within `[i, end)`, or `end` when `c` does not
/// occur there.
pub open spec fn find_from(s: Seq<char>, c: char, i: int, end: int) -> int
    decreases end - i,
{
    if !(0 <= i < end && end <= s.len()) {
        end
    } else if s[i] == c {
        i
    } else {
        find_from(s, c, i + 1, end)
    }
}

/// `find_from` returns `j` exactly when `c` stands at `j`, or `j` is the
/// end, and `c` stands nowhere in `[i, j)`.
pub proof fn lemma_find_from_at(s: Seq<char>, c: char, i: int, end: int, j: int)
    requires
        0 <= i <= j <= end <= s.len(),
        forall|k: int| i <= k < j ==> s[k] != c,
        j == end || s[j] == c,
    ensures
        find_from(s, c, i, end) == j,
    decreases j - i,
{
    if i < j {
        lemma_find_from_at(s, c, i + 1, end, j);
    }
}

/// Everything between `i` and the index that `ltrim_idx` returns is
/// whitespace, and the scan stops at the first character that is not.
pub proof fn lemma_ltrim_idx(s: Seq<char>, i: int)
    requires
        0 <= i <= s.len(),
    ensures
        i <= ltrim_idx(s, i) <= s.len(),
        forall|k: int| i <= k < ltrim_idx(s, i) ==> is_space(#[trigger] s[k]),
        ltrim_idx(s, i) < s.len() ==> !is_space(s[ltrim_idx(s, i)]),
    decreases s.len() - i,
{
    if i < s.len() && is_space(s[i]) {
        lemma_ltrim_idx(s, i + 1);
    }
}

/// Everything between the index that `rtrim_idx` returns and `i` is
/// whitespace, and the scan stops at the first character that is not.
pub proof fn lemma_rtrim_idx(s: Seq<char>, i: int)
    requires
        0 <= i <= s.len(),
    ensures
        0 <= rtrim_idx(s, i) <= i,
        forall|k: int| rtrim_idx(s, i) <= k < i ==> is_space(#[trigger] s[k]),
        rtrim_idx(s, i) > 0 ==> !is_space(s[rtrim_idx(s, i) - 1]),
    decreases i,
{
    if i > 0 && is_space(s[i - 1]) {
        lemma_rtrim_idx(s, i - 1);
    }
}

/// The digit character whose value is `d`.
pub fn digit_char(d: u8) -> (c: char)
    requires
        d <= 9,
    ensures
        c == digit_of(d as int),
{
    match d {
        0 => '0',
        1 => '1',
        2 => '2',
        3 => '3',
        4 => '4',
        5 => '5',
        6 => '6',
        7 => '7',
        8 => '8',
        _ => '9',
    }
}

/// Relies on `String::push`: it appends exactly the given character to
/// the end of the string.
#[verifier::external_body]
pub(crate) fn push_char(s: &mut String, c: char)
    ensures
        final(s)@ == old(s)@.push(c),
{
    s.push(c);
}

/// Whether `c` is a whitespace character in the sense of `is_space`.
pub fn is_space_char(c: char) -> (r: bool)
    ensures
        r == is_space(c),
{
    c == ' ' || c == '\t' || c == '\n' || c == '\r' || c == '\u{b}' || c == '\u{c}'
}

/// Whether `c` is a decimal digit.
pub fn is_digit_char(c: char) -> (r: bool)
    ensures
        r == is_digit(c),
{
    let u = c as u32;
    48 <= u && u <= 57
}

/// The first index within `[from, to)` of `s` that holds a character
/// other than whitespace, or `to` when only whitespace stands there.
pub fn skip_spaces(s: &str, from: usize, to: usize) -> (r: usize)
    requires
        from <= to <= s@.len(),
    ensures
        from <= r <= to,
        forall|k: int| from <= k < r ==> is_space(#[trigger] s@[k]),
        r < to ==> !is_space(s@[r as int]),
{
    let mut i = from;
    while i < to
        invariant
            from <= i <= to <= s@.len(),
            forall|k: int| from <= k < i ==> is_space(#[trigger] s@[k]),
        decreases to - i,
    {
        if !is_space_char(s.get_char(i)) {
            return i;
        }
        i = i + 1;
    }
    to
}

/// The end of the last run of whitespace inside `[from, to)` of `s`: the
/// least `r` such that everything in `[r, to)` is whitespace, or `from`
/// when all of it is.
pub fn skip_spaces_rev(s: &str, from: usize, to: usize) -> (r: usize)
    requires
        from <= to <= s@.len(),
    ensures
        from <= r <= to,
        forall|k: int| r <= k < to ==> is_space(#[trigger] s@[k]),
        r > from ==> !is_space(s@[r - 1]),
{
    let mut i = to;
    while i > from
        invariant
            from <= i <= to <= s@.len(),
            forall|k: int| i <= k < to ==> is_space(#[trigger] s@[k]),
        decreases i,
    {
        if !is_space_char(s.get_char(i - 1)) {
            return i;
        }
        i = i - 1;
    }
    from
}

/// The first index of `c` within `[from, to)` of `s`, or `to` when `c`
/// does not occur there.
pub fn find_char(s: &str, c: char, from: usize, to: usize) -> (r: usize)
    requires
        from <= to <= s@.len(),
    ensures
        r == find_from(s@, c, from as int, to as int),
        from <= r <= to,
{
    let mut i = from;
    while i < to
        invariant
            from <= i <= to <= s@.len(),
            find_from(s@, c, from as int, to as int) == find_from(s@, c, i as int, to as int),
        decreases to - i,
    {
        if s.get_char(i) == c {
            return i;
        }
        i = i + 1;
    }
    to
}

} // verus!
