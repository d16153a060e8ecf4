//! Gcodes from [modal group 7 (spindle)](http://linuxcnc.org/docs/html/gcode/overview.html#_modal_groups)
use crate::error::{agrees, ErrorKind, Fail, PResult, ParseError, SResult};
use crate::gcode_parser::code::word_code;
use crate::gcode_parser::word::{spec_word, word};
use vstd::prelude::*;

verus! {

#[derive(Debug, PartialEq, Eq, Copy, Clone)]
pub enum Spindle {
    /// M3
    Forward,
    /// M4
    Reverse,
    /// M5
    Stop,
}

impl View for Spindle {
    type V = Spindle;

    open spec fn view(&self) -> Spindle {
        *self
    }
}

/// The spindle command that an `M` number selects.
pub open spec fn spindle_code(number: u8) -> Option<Spindle> {
    if number == 3 {
        Some(Spindle::Forward)
    } else if number == 4 {
        Some(Spindle::Reverse)
    } else if number == 5 {
        Some(Spindle::Stop)
    } else {
        None
    }
}

impl Spindle {
    /// The spindle command that an `M` number selects (`TryFrom<u8>`).
    pub fn from_code(number: u8) -> (r: Result<Self, ()>)
        ensures
            match r {
                Ok(v) => spindle_code(number) == Some(v),
                Err(_) => spindle_code(number).is_none(),
            },
    {
        match number {
            3 => Ok(Spindle::Forward),
            4 => Ok(Spindle::Reverse),
            5 => Ok(Spindle::Stop),
            _ => Err(()),
        }
    }
}

/// An `M` word with an integer value 3, 4 or 5; another value is a `MapOpt` error at `pos`.
pub open spec fn spec_spindle(s: Seq<char>, pos: int) -> SResult<Spindle> {
    word_code(spec_word::<u8>(s, pos, 'M'), pos, |n: u8| spindle_code(n), ErrorKind::MapOpt)
}

pub fn spindle(s: &[char], pos: usize) -> (r: PResult<Spindle>)
    requires
        pos <= s@.len(),
    ensures
        agrees(r, spec_spindle(s@, pos as int)),
{
    match word::<u8>(s, pos, 'M') {
        Ok((p, w)) => match Spindle::from_code(w.value) {
            Ok(v) => Ok((p, v)),
            Err(_) => Err(Fail::Error(ParseError { position: pos, kind: ErrorKind::MapOpt })),
        },
        Err(e) => Err(e),
    }
}

} // verus!
