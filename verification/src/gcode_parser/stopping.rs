//! Gcodes from [M code modal group 4 (stopping)](http://linuxcnc.org/docs/html/gcode/overview.html#_modal_groups)
use crate::error::{agrees, ErrorKind, Fail, PResult, ParseError, SResult};
use crate::gcode_parser::code::word_code;
use crate::gcode_parser::word::{spec_word, word};
use vstd::prelude::*;

verus! {

#[derive(Debug, PartialEq, Eq, Copy, Clone)]
pub enum Stopping {
    /// M2
    EndProgram,
}

impl View for Stopping {
    type V = Stopping;

    open spec fn view(&self) -> Stopping {
        *self
    }
}

/// The stop that an `M` number selects.
pub open spec fn stopping_code(number: u8) -> Option<Stopping> {
    if number == 2 {
        Some(Stopping::EndProgram)
    } else {
        None
    }
}

impl Stopping {
    /// The stop that an `M` number selects (`TryFrom<u8>`).
    pub fn from_code(number: u8) -> (r: Result<Self, ()>)
        ensures
            match r {
                Ok(v) => stopping_code(number) == Some(v),
                Err(_) => stopping_code(number).is_none(),
            },
    {
        match number {
            2 => Ok(Stopping::EndProgram),
            _ => Err(()),
        }
    }
}

/// An `M` word with the integer value 2; another value is a `MapOpt` error at `pos`.
pub open spec fn spec_stopping(s: Seq<char>, pos: int) -> SResult<Stopping> {
    word_code(spec_word::<u8>(s, pos, 'M'), pos, |n: u8| stopping_code(n), ErrorKind::MapOpt)
}

pub fn stopping(s: &[char], pos: usize) -> (r: PResult<Stopping>)
    requires
        pos <= s@.len(),
    ensures
        agrees(r, spec_stopping(s@, pos as int)),
{
    match word::<u8>(s, pos, 'M') {
        Ok((p, w)) => match Stopping::from_code(w.value) {
            Ok(v) => Ok((p, v)),
            Err(_) => Err(Fail::Error(ParseError { position: pos, kind: ErrorKind::MapOpt })),
        },
        Err(e) => Err(e),
    }
}

} // verus!
