//! Modal group 1, Spindle.
use crate::error::{agrees, err, or_else, ErrorKind, Fail, PResult, ParseError, SResult};
use crate::text::{digit, is_digit, same_ignoring_case, tag_at, tag_no_case, upper};
use vstd::prelude::*;

verus! {

#[derive(Debug, PartialEq, Eq, Copy, Clone)]
pub enum Spindle {
    /// `M3`, clockwise
    Forward,
    /// `M4`, anticlockwise
    Reverse,
    /// `M5`, stop
    Stop,
}

impl View for Spindle {
    type V = Spindle;

    open spec fn view(&self) -> Spindle {
        *self
    }
}

/// The tag `t` at `pos` (ignoring ASCII case) gives `v`; otherwise a `Tag` error at `pos`.
pub open spec fn spec_tag<T>(s: Seq<char>, pos: int, t: Seq<char>, v: T) -> SResult<T> {
    if tag_at(s, pos, t) {
        Ok((pos + t.len(), v))
    } else {
        err(pos, ErrorKind::Tag)
    }
}

/// The tag `t` at `pos`, not followed by a digit, gives `v`. Without the tag the error is `Tag`
/// at `pos`; with a digit after it, `Not` after the tag.
pub open spec fn spec_short_tag<T>(s: Seq<char>, pos: int, t: Seq<char>, v: T) -> SResult<T> {
    if !tag_at(s, pos, t) {
        err(pos, ErrorKind::Tag)
    } else if pos + t.len() < s.len() && is_digit(s[pos + t.len()]) {
        err(pos + t.len(), ErrorKind::Not)
    } else {
        Ok((pos + t.len(), v))
    }
}

/// `M03`, `M04`, `M05`, or `M3`, `M4`, `M5` not followed by a digit, in either case.
pub open spec fn spec_spindle(s: Seq<char>, pos: int) -> SResult<Spindle> {
    or_else(spec_tag(s, pos, seq!['M', '0', '3'], Spindle::Forward),
    or_else(spec_tag(s, pos, seq!['M', '0', '4'], Spindle::Reverse),
    or_else(spec_tag(s, pos, seq!['M', '0', '5'], Spindle::Stop),
    or_else(spec_short_tag(s, pos, seq!['M', '3'], Spindle::Forward),
    or_else(spec_short_tag(s, pos, seq!['M', '4'], Spindle::Reverse),
    spec_short_tag(s, pos, seq!['M', '5'], Spindle::Stop))))))
}

/// The tag `t` at `pos` followed by no digit; see [`spec_short_tag`].
pub fn short_tag(s: &[char], pos: usize, t: &[char]) -> (r: PResult<()>)
    requires
        pos <= s@.len(),
    ensures
        agrees(r, spec_short_tag(s@, pos as int, t@, ())),
{
    let n = s.len();
    if !tag_no_case(s, pos, t) {
        Err(Fail::Error(ParseError { position: pos, kind: ErrorKind::Tag }))
    } else if pos + t.len() < s.len() && digit(s[pos + t.len()]) {
        Err(Fail::Error(ParseError { position: pos + t.len(), kind: ErrorKind::Not }))
    } else {
        Ok((pos + t.len(), ()))
    }
}

impl Spindle {
    pub fn parse(s: &[char], pos: usize) -> (r: PResult<Self>)
        requires
            pos <= s@.len(),
        ensures
            agrees(r, spec_spindle(s@, pos as int)),
    {
        let n = s.len();
        let m03 = ['M', '0', '3'];
        let m04 = ['M', '0', '4'];
        let m05 = ['M', '0', '5'];
        assert(m03@ == seq!['M', '0', '3']);
        assert(m04@ == seq!['M', '0', '4']);
        assert(m05@ == seq!['M', '0', '5']);
        if tag_no_case(s, pos, &m03) {
            return Ok((pos + 3, Spindle::Forward));
        }
        if tag_no_case(s, pos, &m04) {
            return Ok((pos + 3, Spindle::Reverse));
        }
        if tag_no_case(s, pos, &m05) {
            return Ok((pos + 3, Spindle::Stop));
        }
        let m3 = ['M', '3'];
        let m4 = ['M', '4'];
        let m5 = ['M', '5'];
        assert(m3@ == seq!['M', '3']);
        assert(m4@ == seq!['M', '4']);
        assert(m5@ == seq!['M', '5']);
        if let Ok((p, _)) = short_tag(s, pos, &m3) {
            return Ok((p, Spindle::Forward));
        }
        if let Ok((p, _)) = short_tag(s, pos, &m4) {
            return Ok((p, Spindle::Reverse));
        }
        match short_tag(s, pos, &m5) {
            Ok((p, _)) => Ok((p, Spindle::Stop)),
            Err(e) => Err(e),
        }
    }
}

/// The spindle code a digit names: `3` clockwise, `4` anticlockwise, `5` stop.
pub open spec fn spindle_digit(c: char) -> Option<Spindle> {
    if c == '3' {
        Some(Spindle::Forward)
    } else if c == '4' {
        Some(Spindle::Reverse)
    } else if c == '5' {
        Some(Spindle::Stop)
    } else {
        None
    }
}

/// The spindle codes, with the letter `M` or `m`: `M03` to `M05` name the code of their last
/// digit; `M3` to `M5` not followed by a digit name that digit's code; any other digits after
/// the letter (such as `M30`, `M2` or `M06`) are no spindle code.
pub proof fn law_spindle_codes(s: Seq<char>, pos: int)
    requires
        0 <= pos,
        pos + 2 <= s.len(),
        s[pos] == 'M' || s[pos] == 'm',
        is_digit(s[pos + 1]),
    ensures
        pos + 3 <= s.len() && s[pos + 1] == '0' && spindle_digit(s[pos + 2]) is Some
            ==> spec_spindle(s, pos) == Ok::<(int, Spindle), Fail>((pos + 3, spindle_digit(s[pos + 2])->0)),
        (pos + 2 == s.len() || !is_digit(s[pos + 2])) && spindle_digit(s[pos + 1]) is Some
            ==> spec_spindle(s, pos) == Ok::<(int, Spindle), Fail>((pos + 2, spindle_digit(s[pos + 1])->0)),
        (pos + 2 == s.len() || !is_digit(s[pos + 2])) && spindle_digit(s[pos + 1]) is None ==> spec_spindle(s, pos) is Err,
        pos + 3 <= s.len() && is_digit(s[pos + 2]) && !(s[pos + 1] == '0' && spindle_digit(s[pos + 2]) is Some) ==> spec_spindle(s, pos) is Err,
{
    assert(same_ignoring_case(s[pos], 'M'));
    assert(forall|c: char| is_digit(c) ==> upper(c) == c);
}

} // verus!
