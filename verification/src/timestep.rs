//! The fixed-timestep driver: real time comes in as it passes, simulation
//! steps go out one whole step at a time.
//!
//! A step lasts a sixtieth of a second. Elapsed time is given in whole
//! nanoseconds and kept in units of a sixtieth of a nanosecond, in which a
//! step is exactly `NANOS_PER_SECOND` units, so no time is ever lost to
//! rounding.

use crate::world::{Input, World};
use vstd::prelude::*;

verus! {

/// The number of simulation steps in a second.
pub const STEPS_PER_SECOND: u64 = 60;

/// The number of nanoseconds in a second, which is also the length of a step
/// in sixtieths of a nanosecond.
pub const NANOS_PER_SECOND: u64 = 1_000_000_000;

/// The time that has come in and has not yet been simulated.
pub struct FixedTimestep {
    pending: u64,
}

/// The whole steps that are due once `elapsed` nanoseconds are added to
/// `pending` sixtieths of a nanosecond.
pub open spec fn steps_due(pending: nat, elapsed: nat) -> nat {
    ((pending + elapsed * STEPS_PER_SECOND) / (NANOS_PER_SECOND as int)) as nat
}

/// The time left over, in sixtieths of a nanosecond, once those steps are
/// taken.
pub open spec fn carried(pending: nat, elapsed: nat) -> nat {
    ((pending + elapsed * STEPS_PER_SECOND) % (NANOS_PER_SECOND as int)) as nat
}

/// The sum of the chunks of elapsed time.
pub open spec fn total_elapsed(chunks: Seq<nat>) -> nat
    decreases chunks.len(),
{
    if chunks.len() == 0 {
        0
    } else {
        total_elapsed(chunks.drop_last()) + chunks.last()
    }
}

/// The time left over after the chunks have come in one by one.
pub open spec fn pending_after(pending: nat, chunks: Seq<nat>) -> nat
    decreases chunks.len(),
{
    if chunks.len() == 0 {
        pending
    } else {
        carried(pending_after(pending, chunks.drop_last()), chunks.last())
    }
}

/// The steps taken in all while the chunks come in one by one.
pub open spec fn steps_over(pending: nat, chunks: Seq<nat>) -> nat
    decreases chunks.len(),
{
    if chunks.len() == 0 {
        0
    } else {
        steps_over(pending, chunks.drop_last()) + steps_due(
            pending_after(pending, chunks.drop_last()),
            chunks.last(),
        )
    }
}

/// Taking the steps of one chunk and then those of the next gives as many
/// steps, and leaves as much time, as taking both chunks at once.
pub proof fn lemma_two_chunks(pending: nat, first: nat, second: nat)
    ensures
        steps_due(pending, first) + steps_due(carried(pending, first), second) == steps_due(
            pending,
            first + second,
        ),
        carried(carried(pending, first), second) == carried(pending, first + second),
        carried(pending, first) < NANOS_PER_SECOND,
{
}

/// The number of steps does not depend on how the elapsed time is cut up.
///
/// However the time `T` that has passed reaches the driver, in one piece or
/// in many, the steps taken add up to the whole steps in the time on hand,
/// `floor((pending + T) / DT)`, and the same time is left over. Starting
/// with nothing pending that is `floor(T / DT)`.
pub proof fn lemma_steps_independent_of_chunking(pending: nat, chunks: Seq<nat>)
    requires
        pending < NANOS_PER_SECOND,
    ensures
        steps_over(pending, chunks) == steps_due(pending, total_elapsed(chunks)),
        pending_after(pending, chunks) == carried(pending, total_elapsed(chunks)),
    decreases chunks.len(),
{
    if chunks.len() > 0 {
        lemma_steps_independent_of_chunking(pending, chunks.drop_last());
        lemma_two_chunks(pending, total_elapsed(chunks.drop_last()), chunks.last());
    }
}

impl View for FixedTimestep {
    type V = nat;

    closed spec fn view(&self) -> nat {
        self.pending as nat
    }
}

impl FixedTimestep {
    /// Less than one step is ever left pending.
    #[verifier::type_invariant]
    spec fn well_formed(&self) -> bool {
        self.pending < NANOS_PER_SECOND
    }

    /// A driver with no time pending.
    pub fn new() -> (clock: FixedTimestep)
        ensures
            clock@ == 0,
    {
        FixedTimestep { pending: 0 }
    }

    /// The time pending, in sixtieths of a nanosecond; always less than one
    /// step.
    pub fn pending(&self) -> (units: u64)
        ensures
            units == self@,
            units < NANOS_PER_SECOND,
    {
        proof {
            use_type_invariant(self);
        }
        self.pending
    }

    /// Takes in `elapsed_nanos` of real time and returns the number of whole
    /// steps now due, keeping the remainder for later.
    pub fn accumulate(&mut self, elapsed_nanos: u64) -> (steps: u64)
        ensures
            steps == steps_due(old(self)@, elapsed_nanos as nat),
            final(self)@ == carried(old(self)@, elapsed_nanos as nat),
            final(self)@ < NANOS_PER_SECOND,
    {
        proof {
            use_type_invariant(&*self);
        }
        let total: u128 = self.pending as u128 + elapsed_nanos as u128 * 60;
        let steps: u128 = total / 1_000_000_000;
        self.pending = (total % 1_000_000_000) as u64;
        steps as u64
    }

    /// One tick of the host: takes in the real time that has passed and
    /// advances the world by every whole step that is now due, one after the
    /// other, with the same keys held. Returns the number of steps taken.
    pub fn tick(&mut self, world: &mut World, input: Input, elapsed_nanos: u64) -> (steps: u64)
        requires
            old(world).wf(),
        ensures
            steps == steps_due(old(self)@, elapsed_nanos as nat),
            final(self)@ == carried(old(self)@, elapsed_nanos as nat),
            final(self)@ < NANOS_PER_SECOND,
            final(world)@ == old(world)@.stepped_by(input, steps as nat),
            final(world).wf(),
    {
        let steps: u64 = self.accumulate(elapsed_nanos);
        let mut done: u64 = 0;
        while done < steps
            invariant
                done <= steps,
                world.wf(),
                world@ == old(world)@.stepped_by(input, done as nat),
            decreases steps - done,
        {
            world.step(input);
            done += 1;
        }
        steps
    }
}

} // verus!
