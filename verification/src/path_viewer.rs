//! The lines that show a program's tool path: one from each interpreter state to the next.
use crate::gcode_interpreter::{duplicate_axes, Axes, State, StateView};
use crate::gcode_parser::motion::Motion;
use vstd::prelude::*;

verus! {

/// A straight move between two positions, drawn in the colour of its motion.
#[derive(Debug, PartialEq, Clone)]
pub struct PathLine {
    /// The motion of the state the move starts from.
    pub motion: Motion,
    pub from: Axes,
    pub to: Axes,
}

pub struct PathLineView {
    pub motion: Motion,
    pub from: Seq<Seq<char>>,
    pub to: Seq<Seq<char>>,
}

impl View for PathLine {
    type V = PathLineView;

    open spec fn view(&self) -> PathLineView {
        PathLineView {
            motion: self.motion,
            from: crate::gcode_interpreter::axes_view(self.from@),
            to: crate::gcode_interpreter::axes_view(self.to@),
        }
    }
}

/// The line from state `a` to state `b`.
pub open spec fn line_between(a: StateView, b: StateView) -> PathLineView {
    PathLineView { motion: a.motion, from: a.next_position, to: b.next_position }
}

/// The lines between consecutive states: one fewer than there are states (none for none).
pub fn path_lines(states: &[State]) -> (r: Vec<PathLine>)
    ensures
        r@.len() == if states@.len() == 0 { 0 } else { states@.len() - 1 },
        forall|i: int| 0 <= i < r@.len() ==> #[trigger] r@[i]@ == line_between(states@[i]@, states@[i + 1]@),
{
    let mut r: Vec<PathLine> = Vec::new();
    if states.len() == 0 {
        return r;
    }
    let last = states.len() - 1;
    let mut i: usize = 0;
    while i < last
        invariant
            last == states@.len() - 1,
            i <= last,
            r@.len() == i,
            forall|k: int| 0 <= k < i ==> #[trigger] r@[k]@ == line_between(states@[k]@, states@[k + 1]@),
        decreases states@.len() - i,
    {
        let line = PathLine {
            motion: states[i].motion,
            from: duplicate_axes(&states[i].next_position),
            to: duplicate_axes(&states[i + 1].next_position),
        };
        r.push(line);
        i = i + 1;
    }
    r
}

} // verus!
