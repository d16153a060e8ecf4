//! Gcodes from [modal group 6 (units)](http://linuxcnc.org/docs/html/gcode/overview.html#_modal_groups)
use crate::error::{agrees, ErrorKind, Fail, PResult, ParseError, SResult};
use crate::gcode_parser::code::word_code;
use crate::gcode_parser::word::{spec_word, word};
use vstd::prelude::*;

verus! {

#[derive(Debug, PartialEq, Eq, Copy, Clone)]
pub enum Units {
    /// G20
    Inch,
    /// G21
    Mm,
}

impl View for Units {
    type V = Units;

    open spec fn view(&self) -> Units {
        *self
    }
}

/// The units that a `G` number selects.
pub open spec fn units_code(number: u8) -> Option<Units> {
    if number == 20 {
        Some(Units::Inch)
    } else if number == 21 {
        Some(Units::Mm)
    } else {
        None
    }
}

impl Units {
    /// The units that a `G` number selects (`TryFrom<u8>`).
    pub fn from_code(number: u8) -> (r: Result<Self, ()>)
        ensures
            match r {
                Ok(u) => units_code(number) == Some(u),
                Err(_) => units_code(number).is_none(),
            },
    {
        match number {
            20 => Ok(Units::Inch),
            21 => Ok(Units::Mm),
            _ => Err(()),
        }
    }
}

/// A `G` word with an integer value 20 or 21; another value is a `MapOpt` error at `pos`.
pub open spec fn spec_units(s: Seq<char>, pos: int) -> SResult<Units> {
    word_code(spec_word::<u8>(s, pos, 'G'), pos, |n: u8| units_code(n), ErrorKind::MapOpt)
}

pub fn units(s: &[char], pos: usize) -> (r: PResult<Units>)
    requires
        pos <= s@.len(),
    ensures
        agrees(r, spec_units(s@, pos as int)),
{
    match word::<u8>(s, pos, 'G') {
        Ok((p, w)) => match Units::from_code(w.value) {
            Ok(u) => Ok((p, u)),
            Err(_) => Err(Fail::Error(ParseError { position: pos, kind: ErrorKind::MapOpt })),
        },
        Err(e) => Err(e),
    }
}

} // verus!
