//! Values: a number or a parameter.
use crate::clean_slate::const_generics_test::{float, spec_float};
use crate::error::{agrees, map_value, or_else, Fail, PResult, SResult};
use crate::number::Number;
use crate::streaming::parameter::{spec_parameter, Parameter, ParameterView};
use vstd::prelude::*;

verus! {

/// Value.
#[derive(Debug, PartialEq, Clone)]
pub enum Value {
    /// `100.2`, as written.
    Literal(Number),
    /// `#2250`
    Parameter(Parameter),
}

pub enum ValueView {
    Literal(Seq<char>),
    Parameter(ParameterView),
}

impl View for Value {
    type V = ValueView;

    open spec fn view(&self) -> ValueView {
        match self {
            Value::Literal(n) => ValueView::Literal(n@),
            Value::Parameter(p) => ValueView::Parameter(p@),
        }
    }
}

/// A floating point number, or else a parameter.
pub open spec fn spec_value(s: Seq<char>, pos: int) -> SResult<ValueView> {
    or_else(map_value(spec_float(s, pos), |t: Seq<char>| ValueView::Literal(t)),
        map_value(spec_parameter(s, pos), |p: ParameterView| ValueView::Parameter(p)))
}

impl Value {
    /// See [`spec_value`].
    pub fn parse(s: &[char], pos: usize) -> (r: PResult<Value>)
        requires
            pos <= s@.len(),
        ensures
            agrees(r, spec_value(s@, pos as int)),
    {
        match float(s, pos) {
            Ok((p, n)) => Ok((p, Value::Literal(n))),
            Err(Fail::Failure(e)) => Err(Fail::Failure(e)),
            Err(Fail::Error(_)) => match Parameter::parse(s, pos) {
                Ok((p, v)) => Ok((p, Value::Parameter(v))),
                Err(e) => Err(e),
            },
        }
    }
}

} // verus!
