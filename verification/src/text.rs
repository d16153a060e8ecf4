//! Character classes and small scanners on `char` sequences.
use vstd::prelude::*;

verus! {

/// `' '` or `'\t'`: the blank characters that may separate the parts of a word.
pub open spec fn is_blank(c: char) -> bool {
    c == ' ' || c == '\t'
}

/// An ASCII decimal digit.
pub open spec fn is_digit(c: char) -> bool {
    '0' <= c && c <= '9'
}

/// The value of an ASCII decimal digit.
pub open spec fn digit_value(c: char) -> nat {
    (c as u32 - '0' as u32) as nat
}

/// An ASCII lower-case letter.
pub open spec fn is_lower(c: char) -> bool {
    'a' <= c && c <= 'z'
}

/// An ASCII upper-case letter.
pub open spec fn is_upper(c: char) -> bool {
    'A' <= c && c <= 'Z'
}

/// `c` with an ASCII lower-case letter turned to upper case; every other `char` unchanged.
pub open spec fn upper(c: char) -> char {
    if is_lower(c) {
        (c as u32 - 32) as char
    } else {
        c
    }
}

/// `c` with an ASCII upper-case letter turned to lower case; every other `char` unchanged.
pub open spec fn lower(c: char) -> char {
    if is_upper(c) {
        (c as u32 + 32) as char
    } else {
        c
    }
}

/// `a` and `b` are the same `char` when ASCII case is ignored.
pub open spec fn same_ignoring_case(a: char, b: char) -> bool {
    upper(a) == upper(b)
}

/// Where a run of digits is known to end, [`digit_end`] ends there.
pub proof fn lemma_digit_end_at(s: Seq<char>, a: int, d: int)
    requires
        0 <= a <= d <= s.len(),
        forall|k: int| a <= k < d ==> is_digit(#[trigger] s[k]),
        d == s.len() || !is_digit(s[d]),
    ensures
        digit_end(s, a) == d,
    decreases d - a,
{
    if a < d {
        lemma_digit_end_at(s, a + 1, d);
    }
}

/// Index just past the run of blanks that starts at `pos`.
pub open spec fn blank_end(s: Seq<char>, pos: int) -> int
    decreases s.len() - pos,
{
    if 0 <= pos < s.len() && is_blank(s[pos]) {
        blank_end(s, pos + 1)
    } else {
        pos
    }
}

/// Index just past the run of digits that starts at `pos`.
pub open spec fn digit_end(s: Seq<char>, pos: int) -> int
    decreases s.len() - pos,
{
    if 0 <= pos < s.len() && is_digit(s[pos]) {
        digit_end(s, pos + 1)
    } else {
        pos
    }
}

/// A run ends no earlier than it starts and no later than the input, and covers only
/// members of its class.
pub proof fn lemma_blank_end(s: Seq<char>, pos: int)
    requires
        0 <= pos <= s.len(),
    ensures
        pos <= blank_end(s, pos) <= s.len(),
        forall|i: int| pos <= i < blank_end(s, pos) ==> is_blank(#[trigger] s[i]),
        blank_end(s, pos) < s.len() ==> !is_blank(s[blank_end(s, pos)]),
    decreases s.len() - pos,
{
    if pos < s.len() && is_blank(s[pos]) {
        lemma_blank_end(s, pos + 1);
    }
}

/// See [`lemma_blank_end`].
pub proof fn lemma_digit_end(s: Seq<char>, pos: int)
    requires
        0 <= pos <= s.len(),
    ensures
        pos <= digit_end(s, pos) <= s.len(),
        forall|i: int| pos <= i < digit_end(s, pos) ==> is_digit(#[trigger] s[i]),
        digit_end(s, pos) < s.len() ==> !is_digit(s[digit_end(s, pos)]),
    decreases s.len() - pos,
{
    if pos < s.len() && is_digit(s[pos]) {
        lemma_digit_end(s, pos + 1);
    }
}

/// The `char`s of a string, in order.
pub fn chars(s: &str) -> (r: Vec<char>)
    ensures
        r@ == s@,
{
    let mut r: Vec<char> = Vec::new();
    for c in it: s.chars()
        invariant
            r@ == it.seq().take(it.index() as int),
    {
        r.push(c);
    }
    r
}

/// Whether `c` is `' '` or `'\t'`.
pub fn blank(c: char) -> (r: bool)
    ensures
        r == is_blank(c),
{
    c == ' ' || c == '\t'
}

/// Whether `c` is an ASCII decimal digit.
pub fn digit(c: char) -> (r: bool)
    ensures
        r == is_digit(c),
{
    '0' <= c && c <= '9'
}

/// `char::to_ascii_uppercase`.
pub fn to_upper(c: char) -> (r: char)
    ensures
        r == upper(c),
{
    if 'a' <= c && c <= 'z' {
        let u: u32 = c as u32 - 32;
        assert(0x41 <= u <= 0x5a);
        let b: u8 = u as u8;
        b as char
    } else {
        c
    }
}

/// `char::eq_ignore_ascii_case`.
pub fn eq_ignore_case(a: char, b: char) -> (r: bool)
    ensures
        r == same_ignoring_case(a, b),
{
    to_upper(a) == to_upper(b)
}

/// The index just past the blanks that start at `pos` (what `space0` consumes).
pub fn skip_blanks(s: &[char], pos: usize) -> (r: usize)
    requires
        pos <= s@.len(),
    ensures
        r == blank_end(s@, pos as int),
        pos <= r <= s@.len(),
{
    proof {
        lemma_blank_end(s@, pos as int);
    }
    let mut i = pos;
    while i < s.len() && blank(s[i])
        invariant
            pos <= i <= s@.len(),
            blank_end(s@, i as int) == blank_end(s@, pos as int),
        decreases s@.len() - i,
    {
        i = i + 1;
    }
    i
}

/// The index just past the digits that start at `pos`.
pub fn skip_digits(s: &[char], pos: usize) -> (r: usize)
    requires
        pos <= s@.len(),
    ensures
        r == digit_end(s@, pos as int),
        pos <= r <= s@.len(),
{
    proof {
        lemma_digit_end(s@, pos as int);
    }
    let mut i = pos;
    while i < s.len() && digit(s[i])
        invariant
            pos <= i <= s@.len(),
            digit_end(s@, i as int) == digit_end(s@, pos as int),
        decreases s@.len() - i,
    {
        i = i + 1;
    }
    i
}

} // verus!

verus! {

/// `char::is_whitespace`: the `char` has the Unicode `White_Space` property.
pub open spec fn is_whitespace(c: char) -> bool {
    let u = c as u32;
    (0x09 <= u && u <= 0x0d) || u == 0x20 || u == 0x85 || u == 0xa0 || u == 0x1680 || (0x2000 <= u
        && u <= 0x200a) || u == 0x2028 || u == 0x2029 || u == 0x202f || u == 0x205f || u == 0x3000
}

/// `char::is_whitespace`.
pub fn whitespace(c: char) -> (r: bool)
    ensures
        r == is_whitespace(c),
{
    let u = c as u32;
    (0x09 <= u && u <= 0x0d) || u == 0x20 || u == 0x85 || u == 0xa0 || u == 0x1680 || (0x2000 <= u
        && u <= 0x200a) || u == 0x2028 || u == 0x2029 || u == 0x202f || u == 0x205f || u == 0x3000
}

/// The first index in `[a, b)` that is not whitespace, or `b`.
pub open spec fn trim_start(s: Seq<char>, a: int, b: int) -> int
    decreases b - a,
{
    if a < b && is_whitespace(s[a]) {
        trim_start(s, a + 1, b)
    } else {
        a
    }
}

/// One past the last index in `[a, b)` that is not whitespace, or `a`.
pub open spec fn trim_end(s: Seq<char>, a: int, b: int) -> int
    decreases b - a,
{
    if a < b && is_whitespace(s[b - 1]) {
        trim_end(s, a, b - 1)
    } else {
        b
    }
}

/// `str::trim` on `s[a..b]`: without leading and trailing whitespace.
pub open spec fn trimmed(s: Seq<char>, a: int, b: int) -> Seq<char> {
    let start = trim_start(s, a, b);
    s.subrange(start, trim_end(s, start, b))
}

/// The first index at or after `pos` that holds `c`, or the end of the input.
pub open spec fn find_char(s: Seq<char>, pos: int, c: char) -> int
    decreases s.len() - pos,
{
    if 0 <= pos < s.len() && s[pos] != c {
        find_char(s, pos + 1, c)
    } else {
        pos
    }
}

/// The first index at or after `pos` that holds `'\r'` or `'\n'`, or the end of the input.
pub open spec fn find_eol(s: Seq<char>, pos: int) -> int
    decreases s.len() - pos,
{
    if 0 <= pos < s.len() && s[pos] != '\r' && s[pos] != '\n' {
        find_eol(s, pos + 1)
    } else {
        pos
    }
}

pub proof fn lemma_trim(s: Seq<char>, a: int, b: int)
    requires
        0 <= a <= b <= s.len(),
    ensures
        a <= trim_start(s, a, b) <= b,
        forall|c: int| a <= c <= b ==> c <= #[trigger] trim_end(s, c, b) <= b,
    decreases b - a,
{
    if a < b && is_whitespace(s[a]) {
        lemma_trim(s, a + 1, b);
    }
    assert forall|c: int| a <= c <= b implies c <= #[trigger] trim_end(s, c, b) <= b by {
        lemma_trim_end(s, c, b);
    }
}

proof fn lemma_trim_end(s: Seq<char>, a: int, b: int)
    requires
        0 <= a <= b <= s.len(),
    ensures
        a <= trim_end(s, a, b) <= b,
    decreases b - a,
{
    if a < b && is_whitespace(s[b - 1]) {
        lemma_trim_end(s, a, b - 1);
    }
}

proof fn lemma_trim_start_stops(s: Seq<char>, a: int, b: int)
    requires
        0 <= a <= b <= s.len(),
    ensures
        trim_start(s, a, b) < b ==> !is_whitespace(s[trim_start(s, a, b)]),
    decreases b - a,
{
    if a < b && is_whitespace(s[a]) {
        lemma_trim_start_stops(s, a + 1, b);
    }
}

proof fn lemma_trim_end_stops(s: Seq<char>, a: int, b: int)
    requires
        0 <= a <= b <= s.len(),
    ensures
        trim_end(s, a, b) > a ==> !is_whitespace(s[trim_end(s, a, b) - 1]),
    decreases b - a,
{
    if a < b && is_whitespace(s[b - 1]) {
        lemma_trim_end_stops(s, a, b - 1);
    }
}

/// What [`trimmed`] gives neither starts nor ends with whitespace.
pub proof fn lemma_trimmed_ends(s: Seq<char>, a: int, b: int)
    requires
        0 <= a <= b <= s.len(),
    ensures
        trimmed(s, a, b).len() > 0 ==> !is_whitespace(trimmed(s, a, b)[0]) && !is_whitespace(trimmed(s, a, b).last()),
{
    lemma_trim(s, a, b);
    let st = trim_start(s, a, b);
    lemma_trim_end(s, st, b);
    lemma_trim_start_stops(s, a, b);
    lemma_trim_end_stops(s, st, b);
}

/// See [`find_char`].
pub proof fn lemma_find_char(s: Seq<char>, pos: int, c: char)
    requires
        0 <= pos <= s.len(),
    ensures
        pos <= find_char(s, pos, c) <= s.len(),
        forall|i: int| pos <= i < find_char(s, pos, c) ==> #[trigger] s[i] != c,
        find_char(s, pos, c) < s.len() ==> s[find_char(s, pos, c)] == c,
    decreases s.len() - pos,
{
    if pos < s.len() && s[pos] != c {
        lemma_find_char(s, pos + 1, c);
    }
}

/// See [`find_eol`].
pub proof fn lemma_find_eol(s: Seq<char>, pos: int)
    requires
        0 <= pos <= s.len(),
    ensures
        pos <= find_eol(s, pos) <= s.len(),
        find_eol(s, pos) < s.len() ==> (s[find_eol(s, pos)] == '\r' || s[find_eol(s, pos)] == '\n'),
        forall|i: int| pos <= i < find_eol(s, pos) ==> #[trigger] s[i] != '\r' && s[i] != '\n',
    decreases s.len() - pos,
{
    if pos < s.len() && s[pos] != '\r' && s[pos] != '\n' {
        lemma_find_eol(s, pos + 1);
    }
}

/// The bounds of `str::trim` on `s[a..b]`.
pub fn trim_bounds(s: &[char], a: usize, b: usize) -> (r: (usize, usize))
    requires
        a <= b <= s@.len(),
    ensures
        r.0 == trim_start(s@, a as int, b as int),
        r.1 == trim_end(s@, r.0 as int, b as int),
        a <= r.0 <= r.1 <= b,
{
    proof {
        lemma_trim(s@, a as int, b as int);
    }
    let mut i = a;
    while i < b && whitespace(s[i])
        invariant
            a <= i <= b <= s@.len(),
            trim_start(s@, i as int, b as int) == trim_start(s@, a as int, b as int),
        decreases b - i,
    {
        i = i + 1;
    }
    let mut j = b;
    while i < j && whitespace(s[j - 1])
        invariant
            a <= i <= j <= b <= s@.len(),
            trim_end(s@, i as int, j as int) == trim_end(s@, i as int, b as int),
        decreases j - i,
    {
        j = j - 1;
    }
    (i, j)
}

/// The first index at or after `pos` that holds `c`, or the end of the input.
pub fn find(s: &[char], pos: usize, c: char) -> (r: usize)
    requires
        pos <= s@.len(),
    ensures
        r == find_char(s@, pos as int, c),
        pos <= r <= s@.len(),
{
    proof {
        lemma_find_char(s@, pos as int, c);
    }
    let mut i = pos;
    while i < s.len() && s[i] != c
        invariant
            pos <= i <= s@.len(),
            find_char(s@, i as int, c) == find_char(s@, pos as int, c),
        decreases s@.len() - i,
    {
        i = i + 1;
    }
    i
}

/// The first index at or after `pos` that holds `'\r'` or `'\n'`, or the end of the input.
pub fn find_line_end(s: &[char], pos: usize) -> (r: usize)
    requires
        pos <= s@.len(),
    ensures
        r == find_eol(s@, pos as int),
        pos <= r <= s@.len(),
{
    proof {
        lemma_find_eol(s@, pos as int);
    }
    let mut i = pos;
    while i < s.len() && s[i] != '\r' && s[i] != '\n'
        invariant
            pos <= i <= s@.len(),
            find_eol(s@, i as int) == find_eol(s@, pos as int),
        decreases s@.len() - i,
    {
        i = i + 1;
    }
    i
}

} // verus!

verus! {

/// `' '`, `'\t'`, `'\r'` or `'\n'`.
pub open spec fn is_multispace(c: char) -> bool {
    c == ' ' || c == '\t' || c == '\r' || c == '\n'
}

/// Index just past the run of blanks and line breaks that starts at `pos`.
pub open spec fn multispace_end(s: Seq<char>, pos: int) -> int
    decreases s.len() - pos,
{
    if 0 <= pos < s.len() && is_multispace(s[pos]) {
        multispace_end(s, pos + 1)
    } else {
        pos
    }
}

pub proof fn lemma_multispace_end(s: Seq<char>, pos: int)
    requires
        0 <= pos <= s.len(),
    ensures
        pos <= multispace_end(s, pos) <= s.len(),
        forall|i: int| pos <= i < multispace_end(s, pos) ==> is_multispace(#[trigger] s[i]),
        multispace_end(s, pos) < s.len() ==> !is_multispace(s[multispace_end(s, pos)]),
    decreases s.len() - pos,
{
    if pos < s.len() && is_multispace(s[pos]) {
        lemma_multispace_end(s, pos + 1);
    }
}

/// The index just past the blanks and line breaks that start at `pos` (`multispace0`).
pub fn skip_multispace(s: &[char], pos: usize) -> (r: usize)
    requires
        pos <= s@.len(),
    ensures
        r == multispace_end(s@, pos as int),
        pos <= r <= s@.len(),
{
    proof {
        lemma_multispace_end(s@, pos as int);
    }
    let mut i = pos;
    while i < s.len() && (s[i] == ' ' || s[i] == '\t' || s[i] == '\r' || s[i] == '\n')
        invariant
            pos <= i <= s@.len(),
            multispace_end(s@, i as int) == multispace_end(s@, pos as int),
        decreases s@.len() - i,
    {
        i = i + 1;
    }
    i
}

/// The end of a line ending (`"\n"` or `"\r\n"`) at `pos`, if there is one.
pub open spec fn line_ending_end(s: Seq<char>, pos: int) -> Option<int> {
    if 0 <= pos < s.len() && s[pos] == '\n' {
        Some(pos + 1)
    } else if 0 <= pos && pos + 1 < s.len() && s[pos] == '\r' && s[pos + 1] == '\n' {
        Some(pos + 2)
    } else {
        None
    }
}

/// The end of a line ending (`"\n"` or `"\r\n"`) at `pos`, if there is one.
pub fn line_ending(s: &[char], pos: usize) -> (r: Option<usize>)
    requires
        pos <= s@.len(),
    ensures
        match r {
            Some(q) => line_ending_end(s@, pos as int) == Some(q as int),
            None => line_ending_end(s@, pos as int).is_none(),
        },
{
    if pos < s.len() && s[pos] == '\n' {
        Some(pos + 1)
    } else if pos < s.len() && pos + 1 < s.len() && s[pos] == '\r' && s[pos + 1] == '\n' {
        Some(pos + 2)
    } else {
        None
    }
}

/// The decimal digit `d` as a `char`.
pub open spec fn digit_char(d: nat) -> char {
    ('0' as u32 + d) as char
}

/// The decimal text of `n`, without leading zeros.
pub open spec fn decimal(n: nat) -> Seq<char>
    decreases n,
{
    if n < 10 {
        seq![digit_char(n)]
    } else {
        decimal(n / 10).push(digit_char(n % 10))
    }
}

/// Append the decimal text of `n` to `out`.
pub fn push_decimal(out: &mut Vec<char>, n: u64)
    ensures
        final(out)@ == old(out)@ + decimal(n as nat),
    decreases n,
{
    if n >= 10 {
        push_decimal(out, n / 10);
    }
    let d: u32 = (n % 10) as u32;
    let c: u8 = ('0' as u32 + d) as u8;
    out.push(c as char);
}

} // verus!

verus! {

/// The `char`s at `pos` are `t`, ignoring ASCII case (`tag_no_case`).
pub open spec fn tag_at(s: Seq<char>, pos: int, t: Seq<char>) -> bool {
    0 <= pos && pos + t.len() <= s.len() && forall|i: int| 0 <= i < t.len() ==> same_ignoring_case(#[trigger] s[pos + i], t[i])
}

/// Whether the `char`s at `pos` are `t`, ignoring ASCII case.
pub fn tag_no_case(s: &[char], pos: usize, t: &[char]) -> (r: bool)
    requires
        pos <= s@.len(),
    ensures
        r == tag_at(s@, pos as int, t@),
{
    let n = s.len();
    if t.len() > n - pos {
        return false;
    }
    let mut i: usize = 0;
    while i < t.len()
        invariant
            pos + t@.len() <= s@.len(),
            n == s@.len(),
            i <= t@.len(),
            forall|k: int| 0 <= k < i ==> same_ignoring_case(#[trigger] s@[pos + k], t@[k]),
        decreases t@.len() - i,
    {
        if !eq_ignore_case(s[pos + i], t[i]) {
            return false;
        }
        i = i + 1;
    }
    true
}

} // verus!
