//! Modal group 1, motion.
use crate::error::{agrees, or_else, Fail, PResult, SResult};
use crate::streaming::spindle::{short_tag, spec_short_tag, spec_tag};
use crate::text::{is_digit, same_ignoring_case, tag_no_case, upper};
use vstd::prelude::*;

verus! {

/// Arc direction
#[derive(Debug, PartialEq, Eq, Copy, Clone)]
pub enum ArcDirection {
    /// Clockwise
    CW,
    /// Counter-clockwise.
    CCW,
}

#[derive(Debug, PartialEq, Eq, Copy, Clone)]
pub enum Motion {
    /// `G0`
    Rapid,
    /// `G1`
    Feed,
    /// `G2`/`G3` CW/CCW arc
    Arc(ArcDirection),
}

impl View for Motion {
    type V = Motion;

    open spec fn view(&self) -> Motion {
        *self
    }
}

/// `G00` to `G03`, or `G0` to `G3` not followed by a digit, in either case.
pub open spec fn spec_motion(s: Seq<char>, pos: int) -> SResult<Motion> {
    or_else(spec_tag(s, pos, seq!['G', '0', '0'], Motion::Rapid),
    or_else(spec_tag(s, pos, seq!['G', '0', '1'], Motion::Feed),
    or_else(spec_tag(s, pos, seq!['G', '0', '2'], Motion::Arc(ArcDirection::CW)),
    or_else(spec_tag(s, pos, seq!['G', '0', '3'], Motion::Arc(ArcDirection::CCW)),
    or_else(spec_short_tag(s, pos, seq!['G', '0'], Motion::Rapid),
    or_else(spec_short_tag(s, pos, seq!['G', '1'], Motion::Feed),
    or_else(spec_short_tag(s, pos, seq!['G', '2'], Motion::Arc(ArcDirection::CW)),
    spec_short_tag(s, pos, seq!['G', '3'], Motion::Arc(ArcDirection::CCW)))))))))
}

impl Motion {
    pub fn parse(s: &[char], pos: usize) -> (r: PResult<Self>)
        requires
            pos <= s@.len(),
        ensures
            agrees(r, spec_motion(s@, pos as int)),
    {
        let n = s.len();
        let g00 = ['G', '0', '0'];
        let g01 = ['G', '0', '1'];
        let g02 = ['G', '0', '2'];
        let g03 = ['G', '0', '3'];
        assert(g00@ == seq!['G', '0', '0']);
        assert(g01@ == seq!['G', '0', '1']);
        assert(g02@ == seq!['G', '0', '2']);
        assert(g03@ == seq!['G', '0', '3']);
        if tag_no_case(s, pos, &g00) {
            return Ok((pos + 3, Motion::Rapid));
        }
        if tag_no_case(s, pos, &g01) {
            return Ok((pos + 3, Motion::Feed));
        }
        if tag_no_case(s, pos, &g02) {
            return Ok((pos + 3, Motion::Arc(ArcDirection::CW)));
        }
        if tag_no_case(s, pos, &g03) {
            return Ok((pos + 3, Motion::Arc(ArcDirection::CCW)));
        }
        let g0 = ['G', '0'];
        let g1 = ['G', '1'];
        let g2 = ['G', '2'];
        let g3 = ['G', '3'];
        assert(g0@ == seq!['G', '0']);
        assert(g1@ == seq!['G', '1']);
        assert(g2@ == seq!['G', '2']);
        assert(g3@ == seq!['G', '3']);
        if let Ok((p, _)) = short_tag(s, pos, &g0) {
            return Ok((p, Motion::Rapid));
        }
        if let Ok((p, _)) = short_tag(s, pos, &g1) {
            return Ok((p, Motion::Feed));
        }
        if let Ok((p, _)) = short_tag(s, pos, &g2) {
            return Ok((p, Motion::Arc(ArcDirection::CW)));
        }
        match short_tag(s, pos, &g3) {
            Ok((p, _)) => Ok((p, Motion::Arc(ArcDirection::CCW))),
            Err(e) => Err(e),
        }
    }
}

/// The motion a digit names: `0` rapid, `1` feed, `2` clockwise arc, `3` counter-clockwise arc.
pub open spec fn motion_digit(c: char) -> Option<Motion> {
    if c == '0' {
        Some(Motion::Rapid)
    } else if c == '1' {
        Some(Motion::Feed)
    } else if c == '2' {
        Some(Motion::Arc(ArcDirection::CW))
    } else if c == '3' {
        Some(Motion::Arc(ArcDirection::CCW))
    } else {
        None
    }
}

/// The motion codes, with the letter `G` or `g`: `G00` to `G03` name the motion of their last
/// digit; `G0` to `G3` not followed by a digit name that digit's motion; any other digits after
/// the letter (such as `G17`, `G10` or `G04`) are no motion code.
pub proof fn law_motion_codes(s: Seq<char>, pos: int)
    requires
        0 <= pos,
        pos + 2 <= s.len(),
        s[pos] == 'G' || s[pos] == 'g',
        is_digit(s[pos + 1]),
    ensures
        pos + 3 <= s.len() && s[pos + 1] == '0' && motion_digit(s[pos + 2]) is Some
            ==> spec_motion(s, pos) == Ok::<(int, Motion), Fail>((pos + 3, motion_digit(s[pos + 2])->0)),
        (pos + 2 == s.len() || !is_digit(s[pos + 2])) && motion_digit(s[pos + 1]) is Some
            ==> spec_motion(s, pos) == Ok::<(int, Motion), Fail>((pos + 2, motion_digit(s[pos + 1])->0)),
        (pos + 2 == s.len() || !is_digit(s[pos + 2])) && motion_digit(s[pos + 1]) is None ==> spec_motion(s, pos) is Err,
        pos + 3 <= s.len() && is_digit(s[pos + 2]) && !(s[pos + 1] == '0' && motion_digit(s[pos + 2]) is Some) ==> spec_motion(s, pos) is Err,
{
    assert(same_ignoring_case(s[pos], 'G'));
    assert(forall|c: char| is_digit(c) ==> upper(c) == c);
}

} // verus!
