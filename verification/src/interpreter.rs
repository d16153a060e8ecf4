//! A queue of machine commands and the modal state that executing them builds up.
use crate::number::Number;
use std::collections::VecDeque;
use vstd::prelude::*;

verus! {

#[derive(Debug, Clone, Copy, PartialEq, Eq)]
pub enum Axis {
    X,
    Y,
    Z,
    A,
    B,
    C,
    U,
    V,
    W,
}

#[derive(Debug, Clone, Copy, PartialEq, Eq)]
pub enum Motion {
    Rapid,
    Feed,
}

#[derive(Debug, Clone, PartialEq)]
pub enum Command {
    Position { axis: Axis, value: Number },
    Motion(Motion),
}

pub struct ModalGroupState {
    motion: Option<Motion>,
}

impl ModalGroupState {
    /// No modal group set.
    pub fn default() -> (r: Self)
        ensures
            r.motion() is None,
    {
        Self { motion: None }
    }

    /// The motion mode, if one was set.
    pub closed spec fn motion(&self) -> Option<Motion> {
        self.motion
    }
}

pub struct Interpreter {
    queue: VecDeque<Command>,
    modal_groups: ModalGroupState,
}

/// Commands in the order they will be executed: the queue holds the newest first, so this is
/// the queue reversed.
pub open spec fn pending_order(queue: Seq<Command>) -> Seq<Command> {
    queue.reverse()
}

impl Interpreter {
    pub fn new() -> (r: Self)
        ensures
            r.queue() == Seq::<Command>::empty(),
            r.motion() is None,
    {
        Self { queue: VecDeque::new(), modal_groups: ModalGroupState::default() }
    }

    /// The queued commands, newest first.
    pub closed spec fn queue(&self) -> Seq<Command> {
        self.queue@
    }

    /// The current motion mode, if one was set.
    pub closed spec fn motion(&self) -> Option<Motion> {
        self.modal_groups.motion
    }

    /// Add a command after all the queued ones.
    pub fn queue_command(&mut self, command: Command)
        ensures
            final(self).queue() == seq![command] + old(self).queue(),
            final(self).motion() == old(self).motion(),
    {
        self.queue.push_front(command);
    }

    /// Pop command at beginning of queue and update interpreter state: a motion command sets the
    /// motion mode. With an empty queue nothing changes. (Position commands cannot be executed
    /// yet.)
    pub fn pop_command(&mut self)
        requires
            old(self).queue().len() > 0 ==> !(old(self).queue().last() is Position),
        ensures
            old(self).queue().len() == 0 ==> final(self).queue() == old(self).queue() && final(self).motion() == old(self).motion(),
            old(self).queue().len() > 0 ==> final(self).queue() == old(self).queue().drop_last() && match old(self).queue().last() {
                Command::Motion(m) => final(self).motion() == Some(m),
                _ => final(self).motion() == old(self).motion(),
            },
    {
        if let Some(command) = self.queue.pop_back() {
            match command {
                Command::Motion(motion) => self.modal_groups.motion = Some(motion),
                Command::Position { .. } => {
                    assert(false);
                },
            }
        }
    }

    /// The current motion mode, if one was set.
    pub fn current_motion(&self) -> (r: Option<Motion>)
        ensures
            r == self.motion(),
    {
        self.modal_groups.motion
    }

    /// The number of queued commands.
    pub fn queued(&self) -> (r: usize)
        ensures
            r == self.queue().len(),
    {
        self.queue.len()
    }
}

/// Commands run in the order they were queued: queueing a command puts it last in the order of
/// execution, and popping takes the first in that order.
pub proof fn law_queue_is_fifo(queue: Seq<Command>, c: Command)
    ensures
        pending_order(seq![c] + queue) == pending_order(queue).push(c),
        queue.len() > 0 ==> pending_order(queue)[0] == queue.last(),
        queue.len() > 0 ==> pending_order(queue.drop_last()) == pending_order(queue).drop_first(),
{
    assert(pending_order(seq![c] + queue) =~= pending_order(queue).push(c));
    if queue.len() > 0 {
        assert(pending_order(queue.drop_last()) =~= pending_order(queue).drop_first());
    }
}

/// The queue after queueing each of `cs` in turn onto `queue`.
pub open spec fn queue_all(queue: Seq<Command>, cs: Seq<Command>) -> Seq<Command>
    decreases cs.len(),
{
    if cs.len() == 0 {
        queue
    } else {
        queue_all(seq![cs[0]] + queue, cs.drop_first())
    }
}

/// The queue and the motion mode after popping `k` commands (as [`Interpreter::pop_command`]
/// does) from `queue` with motion mode `m`.
pub open spec fn pop_all(queue: Seq<Command>, m: Option<Motion>, k: nat) -> (Seq<Command>, Option<Motion>)
    decreases k,
{
    if k == 0 {
        (queue, m)
    } else {
        let (q, m1) = pop_all(queue, m, (k - 1) as nat);
        if q.len() == 0 {
            (q, m1)
        } else {
            (q.drop_last(), match q.last() {
                Command::Motion(x) => Some(x),
                _ => m1,
            })
        }
    }
}

/// The motion mode after executing `cs` in order, starting from `m`.
pub open spec fn motion_after(m: Option<Motion>, cs: Seq<Command>) -> Option<Motion>
    decreases cs.len(),
{
    if cs.len() == 0 {
        m
    } else {
        match cs.last() {
            Command::Motion(x) => Some(x),
            _ => motion_after(m, cs.drop_last()),
        }
    }
}

/// Queueing commands `cs` one after the other on a new interpreter, then popping `k` of them,
/// executes the first `k` in the order they were queued: the queue keeps the rest, and the
/// motion mode is that of the last motion command among the first `k` (none if there is none).
/// Popping more than were queued changes nothing more. (A position command cannot be executed,
/// so none is among those popped.)
pub proof fn law_commands_execute_in_queue_order(cs: Seq<Command>, k: nat)
    requires
        forall|i: int| 0 <= i < k && i < cs.len() ==> !(#[trigger] cs[i] is Position),
    ensures
        queue_all(seq![], cs) == cs.reverse(),
        k <= cs.len() ==> pop_all(cs.reverse(), None, k) == (cs.subrange(k as int, cs.len() as int).reverse(), motion_after(None, cs.take(k as int))),
        k > cs.len() ==> pop_all(cs.reverse(), None, k) == (Seq::<Command>::empty(), motion_after(None, cs)),
    decreases k,
{
    lemma_queue_all(seq![], cs);
    assert(seq![] + cs.reverse() =~= cs.reverse());
    if k > 0 {
        law_commands_execute_in_queue_order(cs, (k - 1) as nat);
        if k <= cs.len() {
            let rest = cs.subrange(k - 1, cs.len() as int).reverse();
            assert(rest.len() > 0);
            assert(rest.last() == cs[k - 1]);
            assert(rest.drop_last() =~= cs.subrange(k as int, cs.len() as int).reverse());
            assert(cs.take(k as int).drop_last() =~= cs.take(k - 1));
            assert(cs.take(k as int).last() == cs[k - 1]);
        } else if k - 1 == cs.len() {
            assert(cs.subrange(cs.len() as int, cs.len() as int).reverse() =~= Seq::<Command>::empty());
            assert(cs.take(cs.len() as int) =~= cs);
        }
    }
}

proof fn lemma_queue_all(queue: Seq<Command>, cs: Seq<Command>)
    ensures
        queue_all(queue, cs) == cs.reverse() + queue,
    decreases cs.len(),
{
    if cs.len() > 0 {
        lemma_queue_all(seq![cs[0]] + queue, cs.drop_first());
        assert(cs.drop_first().reverse() + (seq![cs[0]] + queue) =~= cs.reverse() + queue);
    } else {
        assert(cs.reverse() + queue =~= queue);
    }
}

} // verus!
