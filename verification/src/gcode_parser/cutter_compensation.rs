//! Gcodes from [modal group 7 (cutter radius compensation)](http://linuxcnc.org/docs/html/gcode/overview.html#_modal_groups)
use crate::error::{agrees, map_value, PResult, SResult};
use crate::gcode_parser::code::{is_text2, text2};
use crate::gcode_parser::word::{spec_word, word, Word};
use crate::number::WordValue;
use vstd::prelude::*;

verus! {

#[derive(Debug, PartialEq, Eq, Copy, Clone)]
pub enum CutterCompensation {
    /// G40
    Disabled,
    /// G41
    Left,
    /// G42
    Right,
}

impl View for CutterCompensation {
    type V = CutterCompensation;

    open spec fn view(&self) -> CutterCompensation {
        *self
    }
}

/// `FromStr`: the number text must be exactly `40`, `41` or `42`.
impl WordValue for CutterCompensation {
    open spec fn spec_from_text(text: Seq<char>) -> Option<CutterCompensation> {
        if text2(text, '4', '0') {
            Some(CutterCompensation::Disabled)
        } else if text2(text, '4', '1') {
            Some(CutterCompensation::Left)
        } else if text2(text, '4', '2') {
            Some(CutterCompensation::Right)
        } else {
            None
        }
    }

    fn from_text(s: &[char], start: usize, end: usize) -> (r: Option<CutterCompensation>) {
        if is_text2(s, start, end, '4', '0') {
            Some(CutterCompensation::Disabled)
        } else if is_text2(s, start, end, '4', '1') {
            Some(CutterCompensation::Left)
        } else if is_text2(s, start, end, '4', '2') {
            Some(CutterCompensation::Right)
        } else {
            None
        }
    }
}

/// A `G` word whose number is written exactly `40`, `41` or `42`.
pub open spec fn spec_cutter_compensation(s: Seq<char>, pos: int) -> SResult<CutterCompensation> {
    map_value(spec_word::<CutterCompensation>(s, pos, 'G'), |w: Word<CutterCompensation>| w.value)
}

pub fn cutter_compensation(s: &[char], pos: usize) -> (r: PResult<CutterCompensation>)
    requires
        pos <= s@.len(),
    ensures
        agrees(r, spec_cutter_compensation(s@, pos as int)),
{
    match word::<CutterCompensation>(s, pos, 'G') {
        Ok((p, w)) => Ok((p, w.value)),
        Err(e) => Err(e),
    }
}

} // verus!
