//! What each modal group's codes select, stated over the characters of the input.
use crate::error::Fail;
use crate::gcode_parser::cutter_compensation::{spec_cutter_compensation, CutterCompensation};
use crate::gcode_parser::distance_mode::{spec_distance_mode, DistanceMode};
use crate::gcode_parser::motion::{spec_motion, Motion};
use crate::gcode_parser::non_modal::{spec_non_modal, NonModalView};
use crate::gcode_parser::spindle::{spec_spindle, Spindle};
use crate::gcode_parser::stopping::{spec_stopping, Stopping};
use crate::gcode_parser::tool_change::{spec_tool_change, ToolChange};
use crate::gcode_parser::units::{spec_units, Units};
use crate::gcode_parser::coord::spec_coord;
use crate::gcode_parser::word::{spec_word, Word};
use crate::number::{after_sign, all_digits, digits_value, ends_number, law_float_integer, parse_unsigned, text_negative, unsigned_digits, Number};
use crate::text::{blank_end, is_digit, same_ignoring_case, upper};
use vstd::prelude::*;

verus! {

/// At `pos` stands a word with the letter `big` or `small`, then digits up to `e` (at least
/// one), followed by the end of the input or a `char` that cannot continue a number.
pub open spec fn int_word_at(s: Seq<char>, pos: int, big: char, small: char, e: int) -> bool {
    &&& 0 <= pos
    &&& pos + 1 < e <= s.len()
    &&& (s[pos] == big || s[pos] == small)
    &&& forall|k: int| pos + 1 <= k < e ==> is_digit(#[trigger] s[k])
    &&& e == s.len() || ends_number(s[e])
}

/// The value of the digits of the word at `pos` that end at `e`.
pub open spec fn word_number(s: Seq<char>, pos: int, e: int) -> nat {
    digits_value(s.subrange(pos + 1, e))
}

/// The two digits of the word at `pos` are exactly `a`, `b`.
pub open spec fn two_digits(s: Seq<char>, pos: int, e: int, a: char, b: char) -> bool {
    e == pos + 3 && s[pos + 1] == a && s[pos + 2] == b
}

/// A word of letter `letter` (matched in either case) and integer digits reads through its
/// digits, with their value (when it fits a `u8`) or their text.
pub proof fn lemma_int_word(s: Seq<char>, pos: int, big: char, small: char, e: int, letter: char)
    requires
        int_word_at(s, pos, big, small, e),
        same_ignoring_case(s[pos], letter),
    ensures
        spec_word::<u8>(s, pos, letter) == if word_number(s, pos, e) <= 255 {
            Ok::<(int, Word<u8>), Fail>((e, Word { letter: upper(s[pos]), value: word_number(s, pos, e) as u8 }))
        } else {
            crate::error::err(pos + 1, crate::error::ErrorKind::MapRes)
        },
        spec_word::<String>(s, pos, letter) == Ok::<(int, Word<Seq<char>>), Fail>((e, Word { letter: upper(s[pos]), value: s.subrange(pos + 1, e) })),
        spec_word::<DistanceMode>(s, pos, letter) matches Ok((p, _)) ==> p == e,
        spec_word::<CutterCompensation>(s, pos, letter) matches Ok((p, _)) ==> p == e,
{
    assert(blank_end(s, pos + 1) == pos + 1);
    assert(after_sign(s, pos + 1) == pos + 1);
    law_float_integer(s, pos + 1, e);
    let t = s.subrange(pos + 1, e);
    assert(unsigned_digits(t) == t);
    assert(all_digits(t)) by {
        assert forall|i: int| 0 <= i < t.len() implies is_digit(#[trigger] t[i]) by {
            assert(t[i] == s[pos + 1 + i]);
        }
    }
    assert(parse_unsigned(t, 255) == if digits_value(t) <= 255 { Some(digits_value(t)) } else { None::<nat> });
}

/// Motion: `G0` is a rapid move and `G1` a feed move (leading zeros allowed, `G` in either
/// case); a `G` word with any other number is no motion.
pub proof fn law_motion_codes(s: Seq<char>, pos: int, e: int)
    requires
        int_word_at(s, pos, 'G', 'g', e),
    ensures
        word_number(s, pos, e) == 0 ==> spec_motion(s, pos) == Ok::<(int, Motion), Fail>((e, Motion::Rapid)),
        word_number(s, pos, e) == 1 ==> spec_motion(s, pos) == Ok::<(int, Motion), Fail>((e, Motion::Feed)),
        word_number(s, pos, e) > 1 ==> spec_motion(s, pos) is Err,
{
    assert(same_ignoring_case(s[pos], 'G'));
    lemma_int_word(s, pos, 'G', 'g', e, 'G');
}

/// Units: `G20` is inches and `G21` millimetres; a `G` word with any other number is no units
/// code.
pub proof fn law_units_codes(s: Seq<char>, pos: int, e: int)
    requires
        int_word_at(s, pos, 'G', 'g', e),
    ensures
        word_number(s, pos, e) == 20 ==> spec_units(s, pos) == Ok::<(int, Units), Fail>((e, Units::Inch)),
        word_number(s, pos, e) == 21 ==> spec_units(s, pos) == Ok::<(int, Units), Fail>((e, Units::Mm)),
        word_number(s, pos, e) != 20 && word_number(s, pos, e) != 21 ==> spec_units(s, pos) is Err,
{
    assert(same_ignoring_case(s[pos], 'G'));
    lemma_int_word(s, pos, 'G', 'g', e, 'G');
}

/// Spindle: `M3` turns clockwise, `M4` anticlockwise, `M5` stops; an `M` word with any other
/// number is no spindle code.
pub proof fn law_spindle_codes(s: Seq<char>, pos: int, e: int)
    requires
        int_word_at(s, pos, 'M', 'm', e),
    ensures
        word_number(s, pos, e) == 3 ==> spec_spindle(s, pos) == Ok::<(int, Spindle), Fail>((e, Spindle::Forward)),
        word_number(s, pos, e) == 4 ==> spec_spindle(s, pos) == Ok::<(int, Spindle), Fail>((e, Spindle::Reverse)),
        word_number(s, pos, e) == 5 ==> spec_spindle(s, pos) == Ok::<(int, Spindle), Fail>((e, Spindle::Stop)),
        !(3 <= word_number(s, pos, e) <= 5) ==> spec_spindle(s, pos) is Err,
{
    assert(same_ignoring_case(s[pos], 'M'));
    lemma_int_word(s, pos, 'M', 'm', e, 'M');
}

/// Stopping: `M2` ends the program; an `M` word with any other number is no stopping code.
pub proof fn law_stopping_codes(s: Seq<char>, pos: int, e: int)
    requires
        int_word_at(s, pos, 'M', 'm', e),
    ensures
        word_number(s, pos, e) == 2 ==> spec_stopping(s, pos) == Ok::<(int, Stopping), Fail>((e, Stopping::EndProgram)),
        word_number(s, pos, e) != 2 ==> spec_stopping(s, pos) is Err,
{
    assert(same_ignoring_case(s[pos], 'M'));
    lemma_int_word(s, pos, 'M', 'm', e, 'M');
}

/// Tool change: `M6` changes the tool; an `M` word with any other number is no tool change.
pub proof fn law_tool_change_codes(s: Seq<char>, pos: int, e: int)
    requires
        int_word_at(s, pos, 'M', 'm', e),
    ensures
        word_number(s, pos, e) == 6 ==> spec_tool_change(s, pos) == Ok::<(int, ToolChange), Fail>((e, ToolChange::ToolChange)),
        word_number(s, pos, e) != 6 ==> spec_tool_change(s, pos) is Err,
{
    assert(same_ignoring_case(s[pos], 'M'));
    lemma_int_word(s, pos, 'M', 'm', e, 'M');
}

/// Distance mode: `G90` is absolute and `G91` incremental, written with exactly these digits; a
/// `G` word with any other digits is no distance mode.
pub proof fn law_distance_mode_codes(s: Seq<char>, pos: int, e: int)
    requires
        int_word_at(s, pos, 'G', 'g', e),
    ensures
        two_digits(s, pos, e, '9', '0') ==> spec_distance_mode(s, pos) == Ok::<(int, DistanceMode), Fail>((e, DistanceMode::Absolute)),
        two_digits(s, pos, e, '9', '1') ==> spec_distance_mode(s, pos) == Ok::<(int, DistanceMode), Fail>((e, DistanceMode::Incremental)),
        !two_digits(s, pos, e, '9', '0') && !two_digits(s, pos, e, '9', '1') ==> spec_distance_mode(s, pos) is Err,
{
    assert(same_ignoring_case(s[pos], 'G'));
    lemma_int_word(s, pos, 'G', 'g', e, 'G');
    let t = s.subrange(pos + 1, e);
    if e == pos + 3 {
        assert(t[0] == s[pos + 1] && t[1] == s[pos + 2]);
    }
}

/// Cutter compensation: `G40` turns it off, `G41` compensates to the left and `G42` to the
/// right, written with exactly these digits; a `G` word with any other digits is none of them.
pub proof fn law_cutter_compensation_codes(s: Seq<char>, pos: int, e: int)
    requires
        int_word_at(s, pos, 'G', 'g', e),
    ensures
        two_digits(s, pos, e, '4', '0') ==> spec_cutter_compensation(s, pos) == Ok::<(int, CutterCompensation), Fail>((e, CutterCompensation::Disabled)),
        two_digits(s, pos, e, '4', '1') ==> spec_cutter_compensation(s, pos) == Ok::<(int, CutterCompensation), Fail>((e, CutterCompensation::Left)),
        two_digits(s, pos, e, '4', '2') ==> spec_cutter_compensation(s, pos) == Ok::<(int, CutterCompensation), Fail>((e, CutterCompensation::Right)),
        !two_digits(s, pos, e, '4', '0') && !two_digits(s, pos, e, '4', '1') && !two_digits(s, pos, e, '4', '2') ==> spec_cutter_compensation(s, pos) is Err,
{
    assert(same_ignoring_case(s[pos], 'G'));
    lemma_int_word(s, pos, 'G', 'g', e, 'G');
    let t = s.subrange(pos + 1, e);
    if e == pos + 3 {
        assert(t[0] == s[pos + 1] && t[1] == s[pos + 2]);
    }
}

/// Non-modal codes: `G92` followed by blanks and a coordinate sets the coordinate system offset
/// to that coordinate; `G4` followed by blanks and a `P` word with no minus sign dwells for the
/// `P` number; a `G` word with any other number is no non-modal code.
pub proof fn law_non_modal_codes(s: Seq<char>, pos: int, e: int)
    requires
        int_word_at(s, pos, 'G', 'g', e),
    ensures
        word_number(s, pos, e) == 92 ==> (spec_coord(s, blank_end(s, e)) matches Ok((r, c))
            ==> spec_non_modal(s, pos) == Ok::<(int, NonModalView), Fail>((r, NonModalView::CoordinateSystemOffset { position: c }))),
        word_number(s, pos, e) == 4 ==> (spec_word::<Number>(s, blank_end(s, e), 'P') matches Ok((r, w))
            ==> (!text_negative(w.value) ==> spec_non_modal(s, pos) == Ok::<(int, NonModalView), Fail>((r, NonModalView::Dwell { duration: w.value })))),
        word_number(s, pos, e) != 4 && word_number(s, pos, e) != 92 ==> spec_non_modal(s, pos) is Err,
{
    assert(same_ignoring_case(s[pos], 'G'));
    lemma_int_word(s, pos, 'G', 'g', e, 'G');
}

} // verus!
