//! Stepping through a parsed program block by block, tracking the motion mode and the position.
use crate::gcode_parser::block::Block;
use crate::gcode_parser::coord::Coord;
use crate::gcode_parser::motion::Motion;
use crate::gcode_parser::program::GcodeProgram;
use crate::gcode_parser::token::{TokenType, TokenTypeView};
use crate::number::Number;
use vstd::prelude::*;

verus! {

/// The values of the nine axes, in the order `X Y Z U V W A B C`.
pub type Axes = Vec<Number>;

/// The views of the axis values.
pub open spec fn axes_view(a: Seq<Number>) -> Seq<Seq<char>> {
    a.map_values(|n: Number| n@)
}

proof fn lemma_axes_push(a: Seq<Number>, n: Number)
    ensures
        axes_view(a.push(n)) == axes_view(a).push(n@),
{
    assert(axes_view(a.push(n)) =~= axes_view(a).push(n@));
}

/// Interpreter state
#[derive(Debug, PartialEq, Clone)]
pub struct State {
    /// G group 0
    pub motion: Motion,
    pub next_position: Axes,
}

pub struct StateView {
    pub motion: Motion,
    pub next_position: Seq<Seq<char>>,
}

impl View for State {
    type V = StateView;

    open spec fn view(&self) -> StateView {
        StateView { motion: self.motion, next_position: axes_view(self.next_position@) }
    }
}

/// The text of the number zero.
pub open spec fn zero_text() -> Seq<char> {
    seq!['0']
}

/// The state before any block: feed motion, every axis at zero.
pub open spec fn initial_state() -> StateView {
    StateView { motion: Motion::Feed, next_position: Seq::new(9, |i: int| zero_text()) }
}

impl State {
    /// The state before any block: feed motion, every axis at zero.
    pub fn default() -> (r: Self)
        ensures
            r@ == initial_state(),
    {
        let mut next_position: Vec<Number> = Vec::new();
        let mut i: usize = 0;
        while i < 9
            invariant
                i <= 9,
                axes_view(next_position@) =~= Seq::new(i as nat, |k: int| zero_text()),
            decreases 9 - i,
        {
            let z = ['0'];
            let n = Number { text: crate::number::string_of(&z, 0, 1) };
            assert(z@.subrange(0, 1) =~= zero_text());
            proof {
                lemma_axes_push(next_position@, n);
            }
            next_position.push(n);
            i = i + 1;
        }
        State { motion: Motion::Feed, next_position }
    }

    /// A copy of the state.
    pub fn duplicate(&self) -> (r: Self)
        ensures
            r@ == self@,
    {
        State { motion: self.motion, next_position: duplicate_axes(&self.next_position) }
    }
}

/// A copy of the axis values.
pub fn duplicate_axes(a: &Axes) -> (r: Axes)
    ensures
        axes_view(r@) == axes_view(a@),
{
    let mut r: Vec<Number> = Vec::new();
    let mut i: usize = 0;
    while i < a.len()
        invariant
            i <= a@.len(),
            axes_view(r@) =~= axes_view(a@).take(i as int),
        decreases a@.len() - i,
    {
        let d = a[i].duplicate();
        proof {
            lemma_axes_push(r@, d);
        }
        r.push(d);
        i = i + 1;
    }
    r
}

/// The index in a coordinate (`X Y Z A B C U V W`) of the axis at `i` in the position
/// (`X Y Z U V W A B C`).
pub open spec fn coord_axis(i: int) -> int {
    if i < 3 {
        i
    } else if i < 6 {
        i + 3
    } else {
        i - 3
    }
}

/// The position after moving to `coord`: each axis that the coordinate sets takes its value;
/// the others keep theirs.
pub open spec fn merged(current: Seq<Seq<char>>, coord: Seq<Option<Seq<char>>>) -> Seq<Seq<char>> {
    Seq::new(9, |i: int| match coord[coord_axis(i)] {
        Some(v) => v,
        None => current[i],
    })
}

/// The position after moving to `coord`; see [`merged`].
pub fn merge_vector9_and_coord(current: &Axes, coord: &Coord) -> (r: Axes)
    requires
        current@.len() == 9,
    ensures
        axes_view(r@) == merged(axes_view(current@), coord@),
{
    let mut new: Vec<Number> = Vec::new();
    let mut i: usize = 0;
    while i < 9
        invariant
            i <= 9,
            current@.len() == 9,
            axes_view(new@) =~= merged(axes_view(current@), coord@).take(i as int),
        decreases 9 - i,
    {
        let k: usize = if i < 3 { i } else if i < 6 { i + 3 } else { i - 3 };
        let v = match coord.index(k) {
            Some(n) => n.duplicate(),
            None => current[i].duplicate(),
        };
        proof {
            lemma_axes_push(new@, v);
        }
        new.push(v);
        i = i + 1;
    }
    new
}

/// The message for a block with two motion codes.
pub open spec fn multiple_motions_message() -> Seq<char> {
    "Cannot set multiple motion modes on same line"@
}

/// The message for a block with two coordinates.
pub open spec fn multiple_coords_message() -> Seq<char> {
    "Cannot set multiple coordinates on same line"@
}

/// The interpreter handles motion codes and coordinates only. It reads a block's tokens in
/// order, so it can apply a block where every other token comes after a second motion code or a
/// second coordinate: the block is refused before that token is reached.
pub open spec fn applicable(tokens: Seq<TokenTypeView>) -> bool {
    forall|u: int| 0 <= u < tokens.len() && !(#[trigger] tokens[u] is Motion || tokens[u] is Coord) ==> block_commands(tokens.take(u)) is Err
}

/// The motion and the coordinate that the tokens of a block set, or the message for a block that
/// sets either twice.
pub open spec fn block_commands(tokens: Seq<TokenTypeView>) -> Result<(Option<Motion>, Option<Seq<Option<Seq<char>>>>), Seq<char>>
    decreases tokens.len(),
{
    if tokens.len() == 0 {
        Ok((None, None))
    } else {
        match block_commands(tokens.drop_last()) {
            Err(m) => Err(m),
            Ok((m, c)) => match tokens.last() {
                TokenTypeView::Motion(x) => if m is None {
                    Ok((Some(x), c))
                } else {
                    Err(multiple_motions_message())
                },
                TokenTypeView::Coord(x) => if c is None {
                    Ok((m, Some(x)))
                } else {
                    Err(multiple_coords_message())
                },
                _ => Ok((m, c)),
            },
        }
    }
}

/// The state after a block: its motion code, or else the current motion; the current position
/// merged with its coordinate, or else the current position.
pub open spec fn next_state(state: StateView, tokens: Seq<TokenTypeView>) -> Result<StateView, Seq<char>> {
    match block_commands(tokens) {
        Err(m) => Err(m),
        Ok((m, c)) => Ok(StateView {
            motion: match m {
                Some(x) => x,
                None => state.motion,
            },
            next_position: match c {
                Some(x) => merged(state.next_position, x),
                None => state.next_position,
            },
        }),
    }
}

/// The kinds of the tokens of a block.
pub open spec fn token_kinds(b: Block) -> Seq<TokenTypeView> {
    b@.tokens.map_values(|t: crate::gcode_parser::token::TokenView| t.token)
}

pub struct GcodeInterpreter<'a> {
    program: &'a GcodeProgram<'a>,
    state: State,
}

pub struct BlockIterator<'a> {
    state: State,
    blocks: &'a [Block],
    next: usize,
}

impl<'a> GcodeInterpreter<'a> {
    pub fn new(program: &'a GcodeProgram<'a>) -> (r: Self)
        ensures
            r.program() == program,
            r.state()@ == initial_state(),
    {
        Self { program, state: State::default() }
    }

    /// The program being interpreted.
    pub closed spec fn program(&self) -> &'a GcodeProgram<'a> {
        self.program
    }

    /// The state interpretation starts from.
    pub closed spec fn state(&self) -> State {
        self.state
    }

    /// Step through the program's blocks, from the start.
    pub fn block_iter(&self) -> (r: BlockIterator<'a>)
        requires
            self.state()@.next_position.len() == 9,
        ensures
            r.state()@ == self.state()@,
            r.blocks() == self.program().blocks@,
            r.next_index() == 0,
    {
        BlockIterator { state: self.state.duplicate(), blocks: self.program.blocks.as_slice(), next: 0 }
    }
}

impl<'a> BlockIterator<'a> {
    /// The state after the blocks stepped through so far.
    pub closed spec fn state(&self) -> State {
        self.state
    }

    /// All the blocks.
    pub closed spec fn blocks(&self) -> Seq<Block> {
        self.blocks@
    }

    /// The index of the next block.
    pub closed spec fn next_index(&self) -> int {
        self.next as int
    }

    /// The state after `block`; see [`next_state`].
    fn new_state_from_block(&self, block: &Block) -> (r: Result<State, String>)
        requires
            applicable(token_kinds(*block)),
            self.state@.next_position.len() == 9,
        ensures
            match (r, next_state(self.state@, token_kinds(*block))) {
                (Ok(s), Ok(v)) => s@ == v,
                (Err(m), Err(w)) => m@ == w,
                _ => false,
            },
    {
        let mut motion: Option<Motion> = None;
        let mut coord: Option<&Coord> = None;
        let mut i: usize = 0;
        let ghost kinds = token_kinds(*block);
        while i < block.tokens.len()
            invariant
                i <= block.tokens@.len(),
                kinds == token_kinds(*block),
                kinds.len() == block.tokens@.len(),
                applicable(kinds),
                block_commands(kinds.take(i as int)) == Ok::<(Option<Motion>, Option<Seq<Option<Seq<char>>>>), Seq<char>>((motion, match coord {
                    Some(c) => Some(c@),
                    None => None,
                })),
            decreases block.tokens@.len() - i,
        {
            assert(kinds.take(i + 1).drop_last() == kinds.take(i as int));
            assert(kinds[i as int] == block.tokens@[i as int].token@);
            match &block.tokens[i].token {
                TokenType::Motion(m) => {
                    if motion.is_none() {
                        motion = Some(*m);
                    } else {
                        proof {
                            lemma_commands_error_persists(kinds, i + 1);
                        }
                        return Err("Cannot set multiple motion modes on same line".to_owned());
                    }
                },
                TokenType::Coord(c) => {
                    if coord.is_none() {
                        coord = Some(c);
                    } else {
                        proof {
                            lemma_commands_error_persists(kinds, i + 1);
                        }
                        return Err("Cannot set multiple coordinates on same line".to_owned());
                    }
                },
                _ => {
                    assert(!(kinds[i as int] is Motion || kinds[i as int] is Coord));
                    assert(block_commands(kinds.take(i as int)) is Err);
                    assert(false);
                },
            }
            i = i + 1;
        }
        assert(kinds.take(i as int) == kinds);
        let next_position = match coord {
            Some(c) => merge_vector9_and_coord(&self.state.next_position, c),
            None => duplicate_axes(&self.state.next_position),
        };
        Ok(State {
            motion: match motion {
                Some(m) => m,
                None => self.state.motion,
            },
            next_position,
        })
    }

    /// Step to the next block: `None` after the last one; otherwise the state after the block,
    /// which becomes the current state, or the message for a block that cannot be applied (the
    /// current state stays).
    pub fn next(&mut self) -> (r: Option<Result<State, String>>)
        requires
            old(self).next_index() < old(self).blocks().len() ==> applicable(token_kinds(old(self).blocks()[old(self).next_index()])),
            old(self).state()@.next_position.len() == 9,
        ensures
            final(self).blocks() == old(self).blocks(),
            final(self).state()@.next_position.len() == 9,
            old(self).next_index() >= old(self).blocks().len() ==> r is None && final(self).next_index() == old(self).next_index() && final(self).state()@ == old(self).state()@,
            old(self).next_index() < old(self).blocks().len() ==> final(self).next_index() == old(self).next_index() + 1 && match (r, next_state(old(self).state()@, token_kinds(old(self).blocks()[old(self).next_index()]))) {
                (Some(Ok(s)), Ok(v)) => s@ == v && final(self).state()@ == v,
                (Some(Err(m)), Err(w)) => m@ == w && final(self).state()@ == old(self).state()@,
                _ => false,
            },
    {
        if self.next >= self.blocks.len() {
            return None;
        }
        let block = &self.blocks[self.next];
        let r = self.new_state_from_block(block);
        self.next = self.next + 1;
        match r {
            Ok(s) => {
                proof {
                    lemma_next_state_len(self.state@, token_kinds(*block));
                }
                self.state = s.duplicate();
                Some(Ok(s))
            },
            Err(m) => Some(Err(m)),
        }
    }
}

/// Whether the interpreter can apply `block`: see [`applicable`].
pub fn can_apply(block: &Block) -> (r: bool)
    ensures
        r == applicable(token_kinds(*block)),
{
    let ghost kinds = token_kinds(*block);
    let mut motions: usize = 0;
    let mut coords: usize = 0;
    let mut i: usize = 0;
    while i < block.tokens.len()
        invariant
            i <= block.tokens@.len(),
            kinds == token_kinds(*block),
            kinds.len() == block.tokens@.len(),
            motions <= 1,
            coords <= 1,
            block_commands(kinds.take(i as int)) matches Ok((m, c)) && (m is Some <==> motions == 1) && (c is Some <==> coords == 1),
            forall|u: int| 0 <= u < i ==> (#[trigger] kinds[u] is Motion || kinds[u] is Coord),
        decreases block.tokens@.len() - i,
    {
        assert(kinds.take(i + 1).drop_last() == kinds.take(i as int));
        assert(kinds[i as int] == block.tokens@[i as int].token@);
        match &block.tokens[i].token {
            TokenType::Motion(_) => {
                if motions == 1 {
                    assert(block_commands(kinds.take(i + 1)) is Err);
                    proof {
                        lemma_applicable_after_error(kinds, i + 1);
                    }
                    return true;
                }
                motions = 1;
            },
            TokenType::Coord(_) => {
                if coords == 1 {
                    assert(block_commands(kinds.take(i + 1)) is Err);
                    proof {
                        lemma_applicable_after_error(kinds, i + 1);
                    }
                    return true;
                }
                coords = 1;
            },
            _ => {
                assert(!(kinds[i as int] is Motion || kinds[i as int] is Coord));
                assert(!(block_commands(kinds.take(i as int)) is Err));
                return false;
            },
        }
        i = i + 1;
    }
    assert forall|u: int| 0 <= u < kinds.len() && !(#[trigger] kinds[u] is Motion || kinds[u] is Coord) implies block_commands(kinds.take(u)) is Err by {}
    true
}

/// Once the tokens up to `k` are refused, and those before `k` are all motion codes and
/// coordinates, the block is applicable.
proof fn lemma_applicable_after_error(tokens: Seq<TokenTypeView>, k: int)
    requires
        0 < k <= tokens.len(),
        block_commands(tokens.take(k)) is Err,
        forall|u: int| 0 <= u < k - 1 ==> (#[trigger] tokens[u] is Motion || tokens[u] is Coord),
        tokens[k - 1] is Motion || tokens[k - 1] is Coord,
    ensures
        applicable(tokens),
{
    assert forall|u: int| 0 <= u < tokens.len() && !(#[trigger] tokens[u] is Motion || tokens[u] is Coord) implies block_commands(tokens.take(u)) is Err by {
        assert(u >= k);
        let t = tokens.take(u);
        assert(t.take(k) == tokens.take(k));
        lemma_commands_error_persists(t, k);
    }
}

/// Once two motion codes or two coordinates are found, the block is refused whatever follows.
proof fn lemma_commands_error_persists(tokens: Seq<TokenTypeView>, k: int)
    requires
        0 <= k <= tokens.len(),
        block_commands(tokens.take(k)) is Err,
    ensures
        block_commands(tokens) == block_commands(tokens.take(k)),
    decreases tokens.len() - k,
{
    if k < tokens.len() {
        assert(tokens.take(k + 1).drop_last() == tokens.take(k));
        lemma_commands_error_persists(tokens, k + 1);
    } else {
        assert(tokens.take(k) == tokens);
    }
}

/// The next state has nine axes when the current one does.
proof fn lemma_next_state_len(state: StateView, tokens: Seq<TokenTypeView>)
    requires
        state.next_position.len() == 9,
    ensures
        next_state(state, tokens) matches Ok(v) ==> v.next_position.len() == 9,
{
}

/// Motion is modal: a block with no motion code keeps the current motion, and a block with one
/// sets it.
pub proof fn law_motion_is_modal(state: StateView, tokens: Seq<TokenTypeView>)
    ensures
        next_state(state, tokens) matches Ok(v) ==> {
            &&& (forall|i: int| 0 <= i < tokens.len() ==> !(#[trigger] tokens[i] is Motion)) ==> v.motion == state.motion
            &&& forall|i: int| 0 <= i < tokens.len() && #[trigger] tokens[i] is Motion ==> v.motion == tokens[i]->Motion_0
        },
{
    lemma_commands_found(tokens);
}

/// An axis that a block's coordinate leaves unset keeps its value; one that it sets takes the
/// coordinate's value.
pub proof fn law_unset_axes_keep_position(state: StateView, tokens: Seq<TokenTypeView>, i: int)
    requires
        0 <= i < 9,
        state.next_position.len() == 9,
    ensures
        next_state(state, tokens) matches Ok(v) ==> {
            &&& (forall|j: int| 0 <= j < tokens.len() ==> !(#[trigger] tokens[j] is Coord)) ==> v.next_position == state.next_position
            &&& forall|j: int| 0 <= j < tokens.len() && #[trigger] tokens[j] is Coord ==> v.next_position[i] == match tokens[j]->Coord_0[coord_axis(i)] {
                Some(x) => x,
                None => state.next_position[i],
            }
        },
{
    lemma_commands_found(tokens);
}

/// A block with two motion codes, or with two coordinates, is refused.
pub proof fn law_one_motion_and_one_coord_per_block(state: StateView, tokens: Seq<TokenTypeView>, i: int, j: int)
    requires
        0 <= i < j < tokens.len(),
        (tokens[i] is Motion && tokens[j] is Motion) || (tokens[i] is Coord && tokens[j] is Coord),
    ensures
        next_state(state, tokens) is Err,
{
    lemma_commands_found(tokens);
}

/// What [`block_commands`] finds: when it succeeds, the motion and the coordinate it gives are those
/// of the only motion token and the only coordinate token, if any.
proof fn lemma_commands_found(tokens: Seq<TokenTypeView>)
    ensures
        block_commands(tokens) matches Ok((m, c)) ==> {
            &&& (m is None <==> forall|i: int| 0 <= i < tokens.len() ==> !(#[trigger] tokens[i] is Motion))
            &&& (c is None <==> forall|i: int| 0 <= i < tokens.len() ==> !(#[trigger] tokens[i] is Coord))
            &&& forall|i: int| 0 <= i < tokens.len() && #[trigger] tokens[i] is Motion ==> m == Some(tokens[i]->Motion_0)
            &&& forall|i: int| 0 <= i < tokens.len() && #[trigger] tokens[i] is Coord ==> c == Some(tokens[i]->Coord_0)
        },
        forall|i: int, j: int| 0 <= i < j < tokens.len() && #[trigger] tokens[i] is Motion && #[trigger] tokens[j] is Motion ==> block_commands(tokens) is Err,
        forall|i: int, j: int| 0 <= i < j < tokens.len() && #[trigger] tokens[i] is Coord && #[trigger] tokens[j] is Coord ==> block_commands(tokens) is Err,
    decreases tokens.len(),
{
    if tokens.len() > 0 {
        let n = tokens.len() - 1;
        let init = tokens.drop_last();
        lemma_commands_found(init);
        assert forall|i: int| 0 <= i < n implies #[trigger] init[i] == tokens[i] by {}
        assert forall|i: int, j: int| 0 <= i < j < tokens.len() && #[trigger] tokens[i] is Motion && #[trigger] tokens[j] is Motion implies block_commands(tokens) is Err by {
            assert(init[i] == tokens[i]);
            if j < n {
                assert(init[j] == tokens[j]);
            }
        }
        assert forall|i: int, j: int| 0 <= i < j < tokens.len() && #[trigger] tokens[i] is Coord && #[trigger] tokens[j] is Coord implies block_commands(tokens) is Err by {
            assert(init[i] == tokens[i]);
            if j < n {
                assert(init[j] == tokens[j]);
            }
        }
        if let Ok((m, c)) = block_commands(tokens) {
            let (m0, c0) = block_commands(init)->Ok_0;
            assert forall|i: int| 0 <= i < tokens.len() && #[trigger] tokens[i] is Motion implies m == Some(tokens[i]->Motion_0) by {
                if i < n {
                    assert(init[i] == tokens[i]);
                }
            }
            assert forall|i: int| 0 <= i < tokens.len() && #[trigger] tokens[i] is Coord implies c == Some(tokens[i]->Coord_0) by {
                if i < n {
                    assert(init[i] == tokens[i]);
                }
            }
            if m is None {
                assert forall|i: int| 0 <= i < tokens.len() implies !(#[trigger] tokens[i] is Motion) by {
                    if i < n {
                        assert(init[i] == tokens[i]);
                    }
                }
            } else if m0 is Some {
                assert(init[choose|i: int| 0 <= i < init.len() && #[trigger] init[i] is Motion] is Motion);
            } else {
                assert(tokens[n] is Motion);
            }
            if c is None {
                assert forall|i: int| 0 <= i < tokens.len() implies !(#[trigger] tokens[i] is Coord) by {
                    if i < n {
                        assert(init[i] == tokens[i]);
                    }
                }
            } else if c0 is Some {
                assert(init[choose|i: int| 0 <= i < init.len() && #[trigger] init[i] is Coord] is Coord);
            } else {
                assert(tokens[n] is Coord);
            }
        }
    }
}

} // verus!
