//! Gcodes from [modal group 1 (motion)](http://linuxcnc.org/docs/html/gcode/overview.html#_modal_groups)
use crate::error::{agrees, ErrorKind, Fail, PResult, ParseError, SResult};
use crate::gcode_parser::code::word_code;
use crate::gcode_parser::word::{spec_word, word};
use vstd::prelude::*;

verus! {

#[derive(Debug, PartialEq, Eq, Copy, Clone)]
pub enum Motion {
    /// G0
    Rapid,
    /// G1
    Feed,
}

impl View for Motion {
    type V = Motion;

    open spec fn view(&self) -> Motion {
        *self
    }
}

/// The motion that a `G` number selects.
pub open spec fn motion_code(number: u8) -> Option<Motion> {
    if number == 0 {
        Some(Motion::Rapid)
    } else if number == 1 {
        Some(Motion::Feed)
    } else {
        None
    }
}

impl Motion {
    /// The motion that a `G` number selects (`TryFrom<u8>`).
    pub fn from_code(number: u8) -> (r: Result<Self, ()>)
        ensures
            match r {
                Ok(m) => motion_code(number) == Some(m),
                Err(_) => motion_code(number).is_none(),
            },
    {
        match number {
            0 => Ok(Motion::Rapid),
            1 => Ok(Motion::Feed),
            _ => Err(()),
        }
    }
}

/// A `G` word with an integer value 0 or 1; another value is a `MapRes` error at `pos`.
pub open spec fn spec_motion(s: Seq<char>, pos: int) -> SResult<Motion> {
    word_code(spec_word::<u8>(s, pos, 'G'), pos, |n: u8| motion_code(n), ErrorKind::MapRes)
}

pub fn motion(s: &[char], pos: usize) -> (r: PResult<Motion>)
    requires
        pos <= s@.len(),
    ensures
        agrees(r, spec_motion(s@, pos as int)),
{
    match word::<u8>(s, pos, 'G') {
        Ok((p, w)) => match Motion::from_code(w.value) {
            Ok(m) => Ok((p, m)),
            Err(_) => Err(Fail::Error(ParseError { position: pos, kind: ErrorKind::MapRes })),
        },
        Err(e) => Err(e),
    }
}

} // verus!
