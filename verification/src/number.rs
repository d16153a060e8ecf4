//! Numbers as they are written in a program, and the conversions of their text to values.
use crate::error::{agrees, err, failure, ErrorKind, Fail, PResult, ParseError, SResult};
use crate::text::{chars, digit, digit_end, digit_value, is_digit, lemma_digit_end, lemma_digit_end_at, skip_digits};
use vstd::prelude::*;

verus! {

/// `String::push`: appends one `char` to the end of the string.
#[verifier::external_body]
pub(crate) fn push_char(s: &mut String, c: char)
    ensures
        final(s)@ == old(s)@.push(c),
{
    s.push(c);
}

/// A new `String` holding `s[start..end]`.
pub fn string_of(s: &[char], start: usize, end: usize) -> (r: String)
    requires
        start <= end <= s@.len(),
    ensures
        r@ == s@.subrange(start as int, end as int),
{
    let mut r = String::new();
    let mut i = start;
    while i < end
        invariant
            start <= i <= end <= s@.len(),
            r@ == s@.subrange(start as int, i as int),
        decreases end - i,
    {
        push_char(&mut r, s[i]);
        assert(s@.subrange(start as int, i + 1) == s@.subrange(start as int, i as int).push(s@[i as int]));
        i = i + 1;
    }
    r
}

/// A number as written in a program, for example `-12.5` or `3`.
///
/// The text is kept exactly as it was written; it is turned into a floating point value only
/// where that value is used.
#[derive(Debug, Clone, PartialEq)]
pub struct Number {
    pub text: String,
}

impl View for Number {
    type V = Seq<char>;

    open spec fn view(&self) -> Seq<char> {
        self.text@
    }
}

impl Number {
    /// A number with the given text.
    pub fn new(text: &str) -> (r: Number)
        ensures
            r@ == text@,
    {
        Number { text: text.to_owned() }
    }

    /// The text of the number.
    pub fn as_str(&self) -> (r: &str)
        ensures
            r@ == self@,
    {
        self.text.as_str()
    }

    /// A copy of the number.
    pub fn duplicate(&self) -> (r: Number)
        ensures
            r@ == self@,
    {
        Number { text: self.text.clone() }
    }

    /// Whether the number is written with a leading `-`.
    pub fn is_negative(&self) -> (r: bool)
        ensures
            r == text_negative(self@),
    {
        let s = self.text.as_str();
        let cs = chars(s);
        cs.len() > 0 && cs[0] == '-'
    }
}

/// The text starts with a `-` sign.
pub open spec fn text_negative(t: Seq<char>) -> bool {
    t.len() > 0 && t[0] == '-'
}

/// Every `char` of the text is a digit.
pub open spec fn all_digits(t: Seq<char>) -> bool {
    forall|i: int| 0 <= i < t.len() ==> is_digit(#[trigger] t[i])
}

/// The value of a string of decimal digits.
pub open spec fn digits_value(t: Seq<char>) -> nat
    decreases t.len(),
{
    if t.len() == 0 {
        0
    } else {
        digits_value(t.drop_last()) * 10 + digit_value(t.last())
    }
}

/// The digits of an unsigned integer's text: the text without a leading `+`.
pub open spec fn unsigned_digits(t: Seq<char>) -> Seq<char> {
    if t.len() > 0 && t[0] == '+' {
        t.drop_first()
    } else {
        t
    }
}

/// What `str::parse` gives for an unsigned integer type whose largest value is `max`: an
/// optional `+`, then one or more digits whose value is at most `max`.
pub open spec fn parse_unsigned(t: Seq<char>, max: nat) -> Option<nat> {
    let d = unsigned_digits(t);
    if d.len() > 0 && all_digits(d) && digits_value(d) <= max {
        Some(digits_value(d))
    } else {
        None
    }
}

/// Digits never lose value when more digits follow.
pub proof fn lemma_digits_value_prefix(t: Seq<char>, k: int)
    requires
        0 <= k <= t.len(),
        all_digits(t),
    ensures
        digits_value(t.take(k)) <= digits_value(t),
    decreases t.len() - k,
{
    if k < t.len() {
        lemma_digits_value_prefix(t, k + 1);
        assert(t.take(k + 1).drop_last() == t.take(k));
    } else {
        assert(t.take(k) == t);
    }
}

/// `str::parse` for an unsigned integer type whose largest value is `max`, on `s[start..end]`.
pub fn parse_unsigned_exec(s: &[char], start: usize, end: usize, max: u64) -> (r: Option<u64>)
    requires
        start <= end <= s@.len(),
    ensures
        match r {
            Some(v) => parse_unsigned(s@.subrange(start as int, end as int), max as nat) == Some(v as nat),
            None => parse_unsigned(s@.subrange(start as int, end as int), max as nat).is_none(),
        },
{
    let ghost t = s@.subrange(start as int, end as int);
    let mut i = start;
    if i < end && s[i] == '+' {
        i = i + 1;
    }
    let ghost d = unsigned_digits(t);
    assert(d == s@.subrange(i as int, end as int));
    if i == end {
        return None;
    }
    let first = i;
    let mut v: u128 = 0;
    while i < end
        invariant
            start <= first <= i <= end <= s@.len(),
            first < end,
            d == s@.subrange(first as int, end as int),
            d == unsigned_digits(t),
            t == s@.subrange(start as int, end as int),
            all_digits(d.take(i - first)),
            v as nat == digits_value(d.take(i - first)),
            v <= max,
        decreases end - i,
    {
        let c = s[i];
        if !digit(c) {
            assert(d[i - first] == c);
            assert(!is_digit(d[i - first]));
            return None;
        }
        let dv: u128 = (c as u32 - '0' as u32) as u128;
        assert(d.take(i - first + 1).drop_last() == d.take(i - first));
        assert(d.take(i - first + 1).last() == c);
        assert(digits_value(d.take(i - first + 1)) == digits_value(d.take(i - first)) * 10 + digit_value(c));
        v = v * 10 + dv;
        i = i + 1;
        assert(v as nat == digits_value(d.take(i - first)));
        assert(all_digits(d.take(i - first))) by {
            assert forall|k: int| 0 <= k < i - first implies is_digit(#[trigger] d.take(i - first)[k]) by {
                if k < i - first - 1 {
                    assert(d.take(i - first)[k] == d.take(i - first - 1)[k]);
                }
            }
        }
        if v > max as u128 {
            proof {
                if all_digits(d) {
                    lemma_digits_value_prefix(d, i - first);
                }
            }
            return None;
        }
    }
    assert(d.take(i - first) == d);
    Some(v as u64)
}

/// The end of a number's text starting at `pos`: an optional sign, then digits with an optional
/// point and optional further digits, or a point and digits; then optionally `e` or `E`, an
/// optional sign and digits. Where the exponent marker has no digits after it, parsing fails
/// for good.
pub open spec fn spec_recognize_float(s: Seq<char>, pos: int) -> SResult<()> {
    let p1 = if pos < s.len() && (s[pos] == '+' || s[pos] == '-') { pos + 1 } else { pos };
    let mantissa: SResult<()> = if p1 < s.len() && is_digit(s[p1]) {
        let p2 = digit_end(s, p1);
        if p2 < s.len() && s[p2] == '.' {
            Ok((digit_end(s, p2 + 1), ()))
        } else {
            Ok((p2, ()))
        }
    } else if p1 < s.len() && s[p1] == '.' {
        if p1 + 1 < s.len() && is_digit(s[p1 + 1]) {
            Ok((digit_end(s, p1 + 1), ()))
        } else {
            err(p1 + 1, ErrorKind::Digit)
        }
    } else {
        err(p1, ErrorKind::Char)
    };
    match mantissa {
        Ok((p3, _)) => if p3 < s.len() && (s[p3] == 'e' || s[p3] == 'E') {
            let p4 = if p3 + 1 < s.len() && (s[p3 + 1] == '+' || s[p3 + 1] == '-') {
                p3 + 2
            } else {
                p3 + 1
            };
            if p4 < s.len() && is_digit(s[p4]) {
                Ok((digit_end(s, p4), ()))
            } else {
                failure(p4, ErrorKind::Digit)
            }
        } else {
            Ok((p3, ()))
        },
        Err(e) => Err(e),
    }
}

/// The index after an optional `+` or `-` at `pos`.
pub open spec fn after_sign(s: Seq<char>, pos: int) -> int {
    if 0 <= pos < s.len() && (s[pos] == '+' || s[pos] == '-') { pos + 1 } else { pos }
}

/// `c` can follow a number without continuing it: not a digit, a point or an exponent marker.
pub open spec fn ends_number(c: char) -> bool {
    !is_digit(c) && c != '.' && c != 'e' && c != 'E'
}

/// An integer: an optional sign, then the digits from `after_sign(s, pos)` up to `d`, followed by
/// the end of the input or a `char` that cannot continue a number, is read as a number through
/// its last digit.
pub proof fn law_float_integer(s: Seq<char>, pos: int, d: int)
    requires
        0 <= pos,
        after_sign(s, pos) < d <= s.len(),
        forall|k: int| after_sign(s, pos) <= k < d ==> is_digit(#[trigger] s[k]),
        d == s.len() || ends_number(s[d]),
    ensures
        spec_recognize_float(s, pos) == Ok::<(int, ()), Fail>((d, ())),
{
    lemma_digit_end_at(s, after_sign(s, pos), d);
}

/// A number written with a leading point: an optional sign, `.`, then the digits up to `d`
/// (at least one), followed by the end of the input or a `char` that is not a digit or an
/// exponent marker, is read as a number through its last digit (so `.5` and `-.25` are numbers).
pub proof fn law_float_leading_point(s: Seq<char>, pos: int, d: int)
    requires
        0 <= pos,
        after_sign(s, pos) + 1 < d <= s.len(),
        s[after_sign(s, pos)] == '.',
        forall|k: int| after_sign(s, pos) + 1 <= k < d ==> is_digit(#[trigger] s[k]),
        d == s.len() || (!is_digit(s[d]) && s[d] != 'e' && s[d] != 'E'),
    ensures
        spec_recognize_float(s, pos) == Ok::<(int, ()), Fail>((d, ())),
{
    lemma_digit_end_at(s, after_sign(s, pos) + 1, d);
}

/// A number with a fraction: an optional sign, digits up to the point at `dot` (at least one),
/// then digits up to `d` (maybe none), followed by the end of the input or a `char` that is not a
/// digit or an exponent marker, is read as a number through `d`.
pub proof fn law_float_fraction(s: Seq<char>, pos: int, dot: int, d: int)
    requires
        0 <= pos,
        after_sign(s, pos) < dot < d <= s.len(),
        s[dot] == '.',
        forall|k: int| after_sign(s, pos) <= k < dot ==> is_digit(#[trigger] s[k]),
        forall|k: int| dot + 1 <= k < d ==> is_digit(#[trigger] s[k]),
        d == s.len() || (!is_digit(s[d]) && s[d] != 'e' && s[d] != 'E'),
    ensures
        spec_recognize_float(s, pos) == Ok::<(int, ()), Fail>((d, ())),
{
    lemma_digit_end_at(s, after_sign(s, pos), dot);
    lemma_digit_end_at(s, dot + 1, d);
}

/// A recognized number ends inside the input and after at least one `char`; an error lies
/// between the start and the end of the input.
pub proof fn lemma_recognize_float(s: Seq<char>, pos: int)
    requires
        0 <= pos <= s.len(),
        s.len() <= usize::MAX,
    ensures
        spec_recognize_float(s, pos) matches Ok((p, _)) ==> pos < p <= s.len(),
        spec_recognize_float(s, pos) matches Err(Fail::Error(e)) ==> pos <= e.position <= s.len(),
        spec_recognize_float(s, pos) matches Err(Fail::Failure(e)) ==> pos <= e.position <= s.len(),
{
    let p1 = if pos < s.len() && (s[pos] == '+' || s[pos] == '-') { pos + 1 } else { pos };
    if p1 < s.len() && is_digit(s[p1]) {
        lemma_digit_end(s, p1);
        let p2 = digit_end(s, p1);
        if p2 < s.len() && s[p2] == '.' {
            lemma_digit_end(s, p2 + 1);
        }
    } else if p1 < s.len() && s[p1] == '.' {
        if p1 + 1 < s.len() && is_digit(s[p1 + 1]) {
            lemma_digit_end(s, p1 + 1);
        }
    }
    if let Ok((p3, _)) = (if p1 < s.len() && is_digit(s[p1]) {
        let p2 = digit_end(s, p1);
        if p2 < s.len() && s[p2] == '.' {
            Ok::<(int, ()), Fail>((digit_end(s, p2 + 1), ()))
        } else {
            Ok((p2, ()))
        }
    } else if p1 < s.len() && s[p1] == '.' && p1 + 1 < s.len() && is_digit(s[p1 + 1]) {
        Ok((digit_end(s, p1 + 1), ()))
    } else {
        Err(Fail::Error(ParseError { position: 0, kind: ErrorKind::Char }))
    }) {
        if p3 < s.len() && (s[p3] == 'e' || s[p3] == 'E') {
            let p4 = if p3 + 1 < s.len() && (s[p3 + 1] == '+' || s[p3 + 1] == '-') {
                p3 + 2
            } else {
                p3 + 1
            };
            if p4 < s.len() && is_digit(s[p4]) {
                lemma_digit_end(s, p4);
            }
        }
    }
}

/// Recognize the text of a number at `pos`; see [`spec_recognize_float`].
pub fn recognize_float(s: &[char], pos: usize) -> (r: PResult<()>)
    requires
        pos <= s@.len(),
    ensures
        agrees(r, spec_recognize_float(s@, pos as int)),
{
    let n = s.len();
    let mut p = pos;
    if p < n && (s[p] == '+' || s[p] == '-') {
        p = p + 1;
    }
    if p < n && digit(s[p]) {
        p = skip_digits(s, p);
        if p < n && s[p] == '.' {
            p = skip_digits(s, p + 1);
        }
    } else if p < n && s[p] == '.' {
        if p + 1 < n && digit(s[p + 1]) {
            p = skip_digits(s, p + 1);
        } else {
            return Err(Fail::Error(ParseError { position: p + 1, kind: ErrorKind::Digit }));
        }
    } else {
        return Err(Fail::Error(ParseError { position: p, kind: ErrorKind::Char }));
    }
    if p < n && (s[p] == 'e' || s[p] == 'E') {
        let mut q = p + 1;
        if q < n && (s[q] == '+' || s[q] == '-') {
            q = q + 1;
        }
        if q < n && digit(s[q]) {
            p = skip_digits(s, q);
        } else {
            return Err(Fail::Failure(ParseError { position: q, kind: ErrorKind::Digit }));
        }
    }
    Ok((p, ()))
}

/// A value that a word's number can stand for, and the conversion of the number's text to it.
pub trait WordValue: View + Sized {
    /// The value that `text` stands for, if any.
    spec fn spec_from_text(text: Seq<char>) -> Option<Self::V>;

    /// The value that `s[start..end]` stands for, if any.
    fn from_text(s: &[char], start: usize, end: usize) -> (r: Option<Self>)
        requires
            start <= end <= s@.len(),
        ensures
            match r {
                Some(v) => Self::spec_from_text(s@.subrange(start as int, end as int)) == Some(v@),
                None => Self::spec_from_text(s@.subrange(start as int, end as int)).is_none(),
            },
    ;
}

impl WordValue for u8 {
    open spec fn spec_from_text(text: Seq<char>) -> Option<u8> {
        match parse_unsigned(text, u8::MAX as nat) {
            Some(v) => Some(v as u8),
            None => None,
        }
    }

    fn from_text(s: &[char], start: usize, end: usize) -> (r: Option<u8>) {
        match parse_unsigned_exec(s, start, end, u8::MAX as u64) {
            Some(v) => Some(v as u8),
            None => None,
        }
    }
}

impl WordValue for u16 {
    open spec fn spec_from_text(text: Seq<char>) -> Option<u16> {
        match parse_unsigned(text, u16::MAX as nat) {
            Some(v) => Some(v as u16),
            None => None,
        }
    }

    fn from_text(s: &[char], start: usize, end: usize) -> (r: Option<u16>) {
        match parse_unsigned_exec(s, start, end, u16::MAX as u64) {
            Some(v) => Some(v as u16),
            None => None,
        }
    }
}

impl WordValue for u32 {
    open spec fn spec_from_text(text: Seq<char>) -> Option<u32> {
        match parse_unsigned(text, u32::MAX as nat) {
            Some(v) => Some(v as u32),
            None => None,
        }
    }

    fn from_text(s: &[char], start: usize, end: usize) -> (r: Option<u32>) {
        match parse_unsigned_exec(s, start, end, u32::MAX as u64) {
            Some(v) => Some(v as u32),
            None => None,
        }
    }
}

/// Any recognized number text is a valid number (as `f32::from_str` accepts it).
impl WordValue for Number {
    open spec fn spec_from_text(text: Seq<char>) -> Option<Seq<char>> {
        Some(text)
    }

    fn from_text(s: &[char], start: usize, end: usize) -> (r: Option<Number>) {
        Some(Number { text: string_of(s, start, end) })
    }
}

/// The text itself, as `String::from_str` gives it.
impl WordValue for String {
    open spec fn spec_from_text(text: Seq<char>) -> Option<Seq<char>> {
        Some(text)
    }

    fn from_text(s: &[char], start: usize, end: usize) -> (r: Option<String>) {
        Some(string_of(s, start, end))
    }
}

} // verus!

verus! {

/// The index of the first `e` or `E` at or after `i` (where a number's exponent starts), or the
/// end of the text.
pub open spec fn mantissa_end(t: Seq<char>, i: int) -> int
    decreases t.len() - i,
{
    if 0 <= i < t.len() && t[i] != 'e' && t[i] != 'E' {
        mantissa_end(t, i + 1)
    } else {
        i
    }
}

/// Some digit of the number's mantissa, between `i` and the exponent, is not `0`.
pub open spec fn nonzero_from(t: Seq<char>, i: int) -> bool
    decreases t.len() - i,
{
    if 0 <= i < t.len() && t[i] != 'e' && t[i] != 'E' {
        ('1' <= t[i] && t[i] <= '9') || nonzero_from(t, i + 1)
    } else {
        false
    }
}

/// The number is written with a minus sign and a digit other than `0` in its mantissa: it
/// stands for a value below zero.
pub open spec fn text_below_zero(t: Seq<char>) -> bool {
    text_negative(t) && nonzero_from(t, 0)
}

impl Number {
    /// Whether the number stands for a value below zero.
    pub fn is_below_zero(&self) -> (r: bool)
        ensures
            r == text_below_zero(self@),
    {
        let t = chars(self.text.as_str());
        if !(t.len() > 0 && t[0] == '-') {
            return false;
        }
        let mut i: usize = 0;
        while i < t.len() && t[i] != 'e' && t[i] != 'E'
            invariant
                i <= t@.len(),
                t@ == self@,
                text_negative(t@),
                nonzero_from(t@, 0) == nonzero_from(t@, i as int),
            decreases t@.len() - i,
        {
            if '1' <= t[i] && t[i] <= '9' {
                assert(nonzero_from(t@, i as int));
                assert(t@ == self@);
                return true;
            }
            i = i + 1;
        }
        false
    }
}

} // verus!
