//! The actor and its state machine: a countdown timer with a flag that says whether an
//! automatic change of state is allowed.

use crate::geometry::Point;
use crate::state::BonnieState;
use vstd::prelude::*;

verus! {

/// The companion itself: which state it is in.
#[derive(Clone, Copy, Debug, PartialEq, Eq, Structural)]
pub struct Bonnie {
    pub state: BonnieState,
}

impl Default for Bonnie {
    /// A companion starts out idle.
    fn default() -> (b: Bonnie)
        ensures
            b.state == BonnieState::Idle,
    {
        Bonnie { state: BonnieState::Idle }
    }
}

/// The last known position of the pointer on the whole desktop, if any.
#[derive(Clone, Copy, Debug, PartialEq, Eq, Structural)]
pub struct GlobalCursorPosition(pub Option<Point>);

impl Default for GlobalCursorPosition {
    /// Until the pointer has been seen, its position is unknown.
    fn default() -> (c: GlobalCursorPosition)
        ensures
            c.0 is None,
    {
        GlobalCursorPosition(None)
    }
}

/// A one-shot countdown, in microseconds.
#[derive(Clone, Copy, Debug, PartialEq, Eq, Structural)]
pub struct Timer {
    /// The duration the countdown was last started with.
    pub duration_us: u64,
    /// What is left of it; zero once it has run out.
    pub remaining_us: u64,
    /// Whether the last tick (or finish) is the one that ran it out.
    pub just_finished: bool,
}

impl Timer {
    /// The timer after `delta` microseconds have passed.
    pub open spec fn ticked(self, delta: int) -> Timer {
        let rem: int = if self.remaining_us > delta {
            self.remaining_us - delta
        } else {
            0
        };
        Timer {
            duration_us: self.duration_us,
            remaining_us: rem as u64,
            just_finished: self.remaining_us > 0 && rem == 0,
        }
    }

    /// A timer freshly started with `duration` microseconds.
    pub open spec fn started(duration: u64) -> Timer {
        Timer { duration_us: duration, remaining_us: duration, just_finished: false }
    }

    pub fn new(duration_us: u64) -> (t: Timer)
        ensures
            t == Timer::started(duration_us),
    {
        Timer { duration_us, remaining_us: duration_us, just_finished: false }
    }

    /// Counts `delta_us` down from what remains, stopping at zero.
    pub fn tick(&mut self, delta_us: u64)
        ensures
            *final(self) == old(self).ticked(delta_us as int),
    {
        let was_running = self.remaining_us > 0;
        self.remaining_us = self.remaining_us.saturating_sub(delta_us);
        self.just_finished = was_running && self.remaining_us == 0;
    }

    /// Whether the countdown has run out.
    pub fn finished(&self) -> (r: bool)
        ensures
            r == (self.remaining_us == 0),
    {
        self.remaining_us == 0
    }

    /// Whether the countdown ran out on the last tick: true once per run.
    pub fn just_finished(&self) -> (r: bool)
        ensures
            r == self.just_finished,
    {
        self.just_finished
    }

    /// Starts the countdown again with a new duration.
    pub fn reset(&mut self, duration_us: u64)
        ensures
            *final(self) == Timer::started(duration_us),
    {
        self.duration_us = duration_us;
        self.remaining_us = duration_us;
        self.just_finished = false;
    }
}

/// One operation on the machine.
#[derive(Clone, Copy, Debug, PartialEq, Eq, Structural)]
pub enum MachineOp {
    Tick(u64),
    Block,
    Unblock,
    ToggleBlock,
    Finish,
    Reset(u64),
}

/// The state machine's lock: a countdown plus the flag that allows an automatic change of
/// state once the countdown has run out.
#[derive(Clone, Copy, Debug, PartialEq, Eq, Structural)]
pub struct StateMachine {
    pub timer: Timer,
    pub can_change: bool,
}

impl StateMachine {
    /// The machine after one operation.
    pub open spec fn after(self, op: MachineOp) -> StateMachine {
        match op {
            MachineOp::Tick(d) => StateMachine { timer: self.timer.ticked(d as int), ..self },
            MachineOp::Block => StateMachine { can_change: false, ..self },
            MachineOp::Unblock => StateMachine { can_change: true, ..self },
            MachineOp::ToggleBlock => StateMachine { can_change: !self.can_change, ..self },
            MachineOp::Finish => StateMachine {
                timer: self.timer.ticked(self.timer.remaining_us as int),
                can_change: true,
            },
            MachineOp::Reset(d) => StateMachine { timer: Timer::started(d), ..self },
        }
    }

    /// The machine after a sequence of operations, first to last.
    pub open spec fn after_all(self, ops: Seq<MachineOp>) -> StateMachine
        decreases ops.len(),
    {
        if ops.len() == 0 {
            self
        } else {
            self.after(ops[0]).after_all(ops.drop_first())
        }
    }

    /// Whether the machine lets the state change now.
    pub open spec fn is_due(self) -> bool {
        self.can_change && self.timer.remaining_us == 0
    }

    /// An open machine whose countdown starts at `duration_us`.
    pub fn new(duration_us: u64) -> (m: StateMachine)
        ensures
            m.timer == Timer::started(duration_us),
            m.can_change,
    {
        StateMachine { timer: Timer::new(duration_us), can_change: true }
    }

    /// Forbids automatic changes of state.
    pub fn block(&mut self)
        ensures
            *final(self) == old(self).after(MachineOp::Block),
            !final(self).can_change,
            final(self).timer == old(self).timer,
    {
        self.can_change = false;
    }

    /// Allows automatic changes of state again.
    pub fn unblock(&mut self)
        ensures
            *final(self) == old(self).after(MachineOp::Unblock),
            final(self).can_change,
            final(self).timer == old(self).timer,
    {
        self.can_change = true;
    }

    /// Runs the countdown out and unlocks the machine, so that the state changes
    /// at the next opportunity.
    pub fn finish(&mut self)
        ensures
            *final(self) == old(self).after(MachineOp::Finish),
            final(self).can_change,
            final(self).timer.remaining_us == 0,
            final(self).timer.duration_us == old(self).timer.duration_us,
            final(self).is_due(),
    {
        self.can_change = true;
        let remaining = self.timer.remaining_us;
        self.timer.tick(remaining);
    }

    /// Flips whether automatic changes of state are allowed.
    pub fn toggle_block(&mut self)
        ensures
            *final(self) == old(self).after(MachineOp::ToggleBlock),
            final(self).can_change == !old(self).can_change,
            final(self).timer == old(self).timer,
    {
        self.can_change = !self.can_change;
    }

    /// Whether the machine is open and its countdown has run out.
    pub fn is_due_now(&self) -> (r: bool)
        ensures
            r == self.is_due(),
    {
        self.can_change && self.timer.finished()
    }
}

/// Finishing an open machine whose countdown has run out, any number of times,
/// leaves it open and run out.
pub proof fn lemma_finish_idempotent(m: StateMachine, ops: Seq<MachineOp>)
    requires
        m.can_change,
        m.timer.remaining_us == 0,
        forall|i: int| 0 <= i < ops.len() ==> ops[i] == MachineOp::Finish,
    ensures
        m.after_all(ops).can_change,
        m.after_all(ops).timer.remaining_us == 0,
        m.after_all(ops).timer.duration_us == m.timer.duration_us,
    decreases ops.len(),
{
    if ops.len() > 0 {
        let rest = ops.drop_first();
        assert forall|i: int| 0 <= i < rest.len() implies rest[i] == MachineOp::Finish by {
            assert(rest[i] == ops[i + 1]);
        }
        lemma_finish_idempotent(m.after(ops[0]), rest);
    }
}

/// After a block, the machine stays closed through any operations until an
/// unblock, a finish or a toggle.
pub proof fn lemma_block_holds(m: StateMachine, ops: Seq<MachineOp>)
    requires
        forall|i: int|
            0 <= i < ops.len() ==> !(ops[i] is Unblock || ops[i] is Finish || ops[i] is ToggleBlock),
    ensures
        !m.after(MachineOp::Block).after_all(ops).can_change,
    decreases ops.len(),
{
    if ops.len() > 0 {
        let rest = ops.drop_first();
        assert forall|i: int|
            0 <= i < rest.len() implies !(rest[i] is Unblock || rest[i] is Finish
                || rest[i] is ToggleBlock) by {
            assert(rest[i] == ops[i + 1]);
        }
        let next = m.after(MachineOp::Block).after(ops[0]);
        assert(next == next.after(MachineOp::Block));
        lemma_block_holds(next, rest);
    }
}

} // verus!
