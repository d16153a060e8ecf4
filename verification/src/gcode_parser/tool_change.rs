//! Gcodes from [modal group 6 (tool change)](http://linuxcnc.org/docs/html/gcode/overview.html#_modal_groups)
use crate::error::{agrees, ErrorKind, Fail, PResult, ParseError, SResult};
use crate::gcode_parser::code::word_code;
use crate::gcode_parser::word::{spec_word, word};
use vstd::prelude::*;

verus! {

#[derive(Debug, PartialEq, Eq, Copy, Clone)]
pub enum ToolChange {
    /// M6
    ToolChange,
}

impl View for ToolChange {
    type V = ToolChange;

    open spec fn view(&self) -> ToolChange {
        *self
    }
}

/// The tool change that an `M` number selects.
pub open spec fn tool_change_code(number: u8) -> Option<ToolChange> {
    if number == 6 {
        Some(ToolChange::ToolChange)
    } else {
        None
    }
}

impl ToolChange {
    /// The tool change that an `M` number selects (`TryFrom<u8>`).
    pub fn from_code(number: u8) -> (r: Result<Self, ()>)
        ensures
            match r {
                Ok(v) => tool_change_code(number) == Some(v),
                Err(_) => tool_change_code(number).is_none(),
            },
    {
        match number {
            6 => Ok(ToolChange::ToolChange),
            _ => Err(()),
        }
    }
}

/// An `M` word with the integer value 6; another value is a `MapRes` error at `pos`.
pub open spec fn spec_tool_change(s: Seq<char>, pos: int) -> SResult<ToolChange> {
    word_code(spec_word::<u8>(s, pos, 'M'), pos, |n: u8| tool_change_code(n), ErrorKind::MapRes)
}

pub fn tool_change(s: &[char], pos: usize) -> (r: PResult<ToolChange>)
    requires
        pos <= s@.len(),
    ensures
        agrees(r, spec_tool_change(s@, pos as int)),
{
    match word::<u8>(s, pos, 'M') {
        Ok((p, w)) => match ToolChange::from_code(w.value) {
            Ok(v) => Ok((p, v)),
            Err(_) => Err(Fail::Error(ParseError { position: pos, kind: ErrorKind::MapRes })),
        },
        Err(e) => Err(e),
    }
}

} // verus!
