//! Gcodes from [modal group 3 (distance mode)](http://linuxcnc.org/docs/html/gcode/overview.html#_modal_groups)
use crate::error::{agrees, map_value, PResult, SResult};
use crate::gcode_parser::code::{is_text2, text2};
use crate::gcode_parser::word::{spec_word, word};
use crate::number::WordValue;
use vstd::prelude::*;

verus! {

#[derive(Debug, PartialEq, Eq, Copy, Clone)]
pub enum DistanceMode {
    /// G90
    Absolute,
    /// G91
    Incremental,
}

impl View for DistanceMode {
    type V = DistanceMode;

    open spec fn view(&self) -> DistanceMode {
        *self
    }
}

/// `FromStr`: the number text must be exactly `90` or `91`.
impl WordValue for DistanceMode {
    open spec fn spec_from_text(text: Seq<char>) -> Option<DistanceMode> {
        if text2(text, '9', '0') {
            Some(DistanceMode::Absolute)
        } else if text2(text, '9', '1') {
            Some(DistanceMode::Incremental)
        } else {
            None
        }
    }

    fn from_text(s: &[char], start: usize, end: usize) -> (r: Option<DistanceMode>) {
        if is_text2(s, start, end, '9', '0') {
            Some(DistanceMode::Absolute)
        } else if is_text2(s, start, end, '9', '1') {
            Some(DistanceMode::Incremental)
        } else {
            None
        }
    }
}

/// A `G` word whose number is written exactly `90` or `91`.
pub open spec fn spec_distance_mode(s: Seq<char>, pos: int) -> SResult<DistanceMode> {
    map_value(spec_word::<DistanceMode>(s, pos, 'G'), |w: crate::gcode_parser::word::Word<DistanceMode>| w.value)
}

pub fn distance_mode(s: &[char], pos: usize) -> (r: PResult<DistanceMode>)
    requires
        pos <= s@.len(),
    ensures
        agrees(r, spec_distance_mode(s@, pos as int)),
{
    match word::<DistanceMode>(s, pos, 'G') {
        Ok((p, w)) => Ok((p, w.value)),
        Err(e) => Err(e),
    }
}

} // verus!
