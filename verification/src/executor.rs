//! The decisions of a single-task executor that polls instead of waiting
//! to be woken.
//!
//! The executor drives one computation on the calling thread. After a poll
//! that found the computation pending it burns a little time and polls
//! again: it issues a spin hint for each of the first `SPIN_THRESHOLD`
//! pending polls in a row, gives up the rest of its time slice on the next
//! one, and starts over. Polling and waiting are the caller's business; the
//! type here decides which wait follows which poll.

use vstd::prelude::*;

verus! {

/// Number of pending polls in a row that are answered with a spin hint
/// before one is answered with a yield.
pub const SPIN_THRESHOLD: u64 = 150_000;

/// What a poll of the computation found.
#[derive(Clone, Copy, Debug, PartialEq, Eq, Structural)]
pub enum Outcome {
    /// The computation has finished with a value.
    Ready,
    /// The computation has not finished yet.
    Pending,
}

/// What the executor does after a poll.
#[derive(Clone, Copy, Debug, PartialEq, Eq, Structural)]
pub enum Action {
    /// Hand the computation's value to the caller and stop polling.
    Finish,
    /// Issue a spin hint to the processor, then poll again.
    Spin,
    /// Give the rest of the time slice back to the scheduler, then poll again.
    Yield,
}

/// Where a task stands in its life.
#[derive(Clone, Copy, Debug, PartialEq, Eq, Structural)]
pub enum Phase {
    /// Not polled yet.
    Created,
    /// Polled and found pending; the next pending poll is answered with a
    /// spin hint.
    Spinning,
    /// Polled and found pending `SPIN_THRESHOLD` times since the last yield;
    /// the next pending poll is answered with a yield.
    Yielding,
    /// The computation has finished. No state follows.
    Completed,
}

/// The state of a task as far as the executor's decisions depend on it.
pub struct TaskState {
    pub phase: Phase,
    /// Spin hints issued since the task was created or last yielded.
    pub spins: nat,
}

impl TaskState {
    /// Whether the state is one that a task can be in: the spin counter is
    /// below the threshold, and it is zero where no spin hint has been
    /// issued since the task was created or last ran out of spin hints.
    pub open spec fn is_valid(self) -> bool {
        &&& self.spins < SPIN_THRESHOLD
        &&& (self.phase == Phase::Created || self.phase == Phase::Yielding) ==> self.spins == 0
    }
}

/// The state of a task that has not been polled yet.
pub open spec fn created() -> TaskState {
    TaskState { phase: Phase::Created, spins: 0 }
}

/// What the executor does when a poll of a task in state `s` has found
/// `outcome`.
pub open spec fn action_after(s: TaskState, outcome: Outcome) -> Action {
    if s.phase == Phase::Completed || outcome == Outcome::Ready {
        Action::Finish
    } else if s.phase == Phase::Yielding {
        Action::Yield
    } else {
        Action::Spin
    }
}

/// The state that follows state `s` when a poll has found `outcome`.
pub open spec fn state_after(s: TaskState, outcome: Outcome) -> TaskState {
    if s.phase == Phase::Completed {
        s
    } else if outcome == Outcome::Ready {
        TaskState { phase: Phase::Completed, spins: s.spins }
    } else if s.phase == Phase::Yielding {
        TaskState { phase: Phase::Spinning, spins: 0 }
    } else if s.spins + 1 < SPIN_THRESHOLD {
        TaskState { phase: Phase::Spinning, spins: s.spins + 1 }
    } else {
        TaskState { phase: Phase::Yielding, spins: 0 }
    }
}

/// The state of a task that was created and then found pending `n` times in
/// a row.
pub open spec fn after_pending(n: nat) -> TaskState
    decreases n,
{
    if n == 0 {
        created()
    } else {
        state_after(after_pending((n - 1) as nat), Outcome::Pending)
    }
}

/// How many of the first `n` pending polls of a task are answered with a
/// yield.
pub open spec fn yields_in(n: nat) -> nat
    decreases n,
{
    if n == 0 {
        0
    } else {
        let before = yields_in((n - 1) as nat);
        if action_after(after_pending((n - 1) as nat), Outcome::Pending) == Action::Yield {
            before + 1
        } else {
            before
        }
    }
}

/// The executor's rhythm in closed form. A task that stays pending is
/// answered with `SPIN_THRESHOLD` spin hints, then one yield, and so on:
/// pending poll number `n`, counted from one, is answered with a yield
/// exactly if `n` is a multiple of `SPIN_THRESHOLD + 1`. So `n` pending
/// polls see `n / (SPIN_THRESHOLD + 1)` yields, and the spin counter stands
/// at the remainder.
pub proof fn lemma_pending_rhythm(n: nat)
    ensures
        yields_in(n) == n / (SPIN_THRESHOLD + 1) as nat,
        n > 0 ==> after_pending(n) == if n % (SPIN_THRESHOLD + 1) as nat == SPIN_THRESHOLD {
            TaskState { phase: Phase::Yielding, spins: 0 }
        } else {
            TaskState { phase: Phase::Spinning, spins: n % (SPIN_THRESHOLD + 1) as nat }
        },
        action_after(after_pending(n), Outcome::Pending) == if (n + 1) % (SPIN_THRESHOLD
            + 1) as nat == 0 {
            Action::Yield
        } else {
            Action::Spin
        },
    decreases n,
{
    lemma_period_step(n);
    if n > 0 {
        lemma_pending_rhythm((n - 1) as nat);
        lemma_period_step((n - 1) as nat);
    }
}

/// Division by the period `SPIN_THRESHOLD + 1`, from one number to the
/// next. The period is written out, which keeps the arithmetic linear.
proof fn lemma_period_step(n: nat)
    ensures
        SPIN_THRESHOLD + 1 == 150_001,
        n % 150_001 == 150_000 ==> (n + 1) % 150_001 == 0 && (n + 1) / 150_001 == n / 150_001 + 1,
        n % 150_001 != 150_000 ==> (n + 1) % 150_001 == n % 150_001 + 1 && (n + 1) / 150_001 == n
            / 150_001,
{
}

/// A poll leads from a valid state to a valid state.
pub proof fn lemma_state_after_is_valid(s: TaskState, outcome: Outcome)
    requires
        s.is_valid(),
    ensures
        state_after(s, outcome).is_valid(),
{
}

/// Completion is final: whatever a later poll finds, a completed task
/// stays as it is and the answer is to finish.
pub proof fn lemma_completed_is_final(s: TaskState, outcome: Outcome)
    requires
        s.phase == Phase::Completed,
    ensures
        state_after(s, outcome) == s,
        action_after(s, outcome) == Action::Finish,
{
}

/// The bookkeeping of one task: its phase and its spin counter.
pub struct Task {
    phase: Phase,
    spins: u64,
}

impl View for Task {
    type V = TaskState;

    closed spec fn view(&self) -> TaskState {
        TaskState { phase: self.phase, spins: self.spins as nat }
    }
}

impl Task {
    #[verifier::type_invariant]
    spec fn inv(self) -> bool {
        self@.is_valid()
    }

    /// A task that has not been polled yet.
    pub fn new() -> (r: Task)
        ensures
            r@ == created(),
            r@.is_valid(),
    {
        Task { phase: Phase::Created, spins: 0 }
    }

    /// The phase the task is in.
    pub fn phase(&self) -> (r: Phase)
        ensures
            r == self@.phase,
    {
        self.phase
    }

    /// The spin hints issued since the task was created or last yielded.
    pub fn spins(&self) -> (r: u64)
        ensures
            r == self@.spins,
            self@.is_valid(),
    {
        proof {
            use_type_invariant(self);
        }
        self.spins
    }

    /// Records that a poll has found `outcome` and says what to do next.
    pub fn on_poll(&mut self, outcome: Outcome) -> (action: Action)
        ensures
            action == action_after(old(self)@, outcome),
            final(self)@ == state_after(old(self)@, outcome),
            final(self)@.is_valid(),
    {
        proof {
            use_type_invariant(&*self);
        }
        match self.phase {
            Phase::Completed => Action::Finish,
            Phase::Yielding => match outcome {
                Outcome::Ready => {
                    self.phase = Phase::Completed;
                    Action::Finish
                },
                Outcome::Pending => {
                    self.phase = Phase::Spinning;
                    Action::Yield
                },
            },
            Phase::Created | Phase::Spinning => match outcome {
                Outcome::Ready => {
                    *self = Task { phase: Phase::Completed, spins: self.spins };
                    Action::Finish
                },
                Outcome::Pending => {
                    if self.spins + 1 < SPIN_THRESHOLD {
                        *self = Task { phase: Phase::Spinning, spins: self.spins + 1 };
                    } else {
                        *self = Task { phase: Phase::Yielding, spins: 0 };
                    }
                    Action::Spin
                },
            },
        }
    }
}

} // verus!
