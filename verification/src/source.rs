//! Sources of the random offsets that the encoder draws.
//!
//! A source keeps, as ghost state, the list of the draws it has answered, so
//! that a contract can say which draws a function made and what it did with
//! the answers.

use vstd::prelude::*;

verus! {

/// One answered draw: the range that was asked for and the byte that came.
pub struct Draw {
    pub low: u8,
    pub high: u8,
    pub value: u8,
}

/// A supply of bytes, each drawn from a range that the caller names.
pub trait RandomByteSource {
    /// Every draw that this source has answered, oldest first.
    spec fn history(&self) -> Seq<Draw>;

    /// Draws a byte from the half-open range that starts at `low` and ends
    /// before `high`, and notes the draw at the end of the history.
    fn next_in_range(&mut self, low: u8, high: u8) -> (value: u8)
        requires
            low < high,
        ensures
            low <= value < high,
            final(self).history() == old(self).history().push((Draw { low, high, value })),
    ;
}

/// `rand::rngs::ThreadRng`, the handle to a thread's generator. It is carried
/// through unread.
#[verifier::external_type_specification]
#[verifier::external_body]
pub struct ExThreadRng(rand::rngs::ThreadRng);

/// `rand::thread_rng` hands out a handle to the generator of the calling
/// thread. Nothing is claimed of the handle. The call panics if the operating
/// system gives the generator no seed.
pub assume_specification[ rand::thread_rng ]() -> (handle: rand::rngs::ThreadRng)
;

/// `rand::Rng::gen_range` on a half-open range of bytes. It panics on an
/// empty range, which `requires` leaves out; what it returns lies in the
/// range. Which byte of the range comes is left open: it is random.
#[verifier::external_body]
fn sample_range(handle: &mut rand::rngs::ThreadRng, low: u8, high: u8) -> (value: u8)
    requires
        low < high,
    ensures
        low <= value < high,
{
    rand::Rng::gen_range(handle, low..high)
}

/// The generator of the calling thread, seeded by the operating system.
pub struct ThreadRandom {
    handle: rand::rngs::ThreadRng,
    answered: Ghost<Seq<Draw>>,
}

impl ThreadRandom {
    /// Takes a handle to the calling thread's generator.
    pub fn new() -> (source: Self)
        ensures
            source.history() == Seq::<Draw>::empty(),
    {
        ThreadRandom { handle: rand::thread_rng(), answered: Ghost(Seq::empty()) }
    }
}

impl RandomByteSource for ThreadRandom {
    closed spec fn history(&self) -> Seq<Draw> {
        self.answered@
    }

    fn next_in_range(&mut self, low: u8, high: u8) -> (value: u8) {
        let value = sample_range(&mut self.handle, low, high);
        self.answered = Ghost(self.answered@.push(Draw { low, high, value }));
        value
    }
}

/// A source without chance: it replays a fixed list of bytes, starting over
/// when the list is used up, and moves each byte to the nearest one of the
/// range that was asked for. An empty list answers every draw with the
/// range's lowest byte.
pub struct FixedSequence {
    values: Vec<u8>,
    position: usize,
    answered: Ghost<Seq<Draw>>,
}

/// The byte of the range from `low` to before `high` that is nearest to
/// `byte`.
pub open spec fn nearest_in_range(byte: u8, low: u8, high: u8) -> u8 {
    if byte < low {
        low
    } else if byte >= high {
        (high - 1) as u8
    } else {
        byte
    }
}

impl FixedSequence {
    #[verifier::type_invariant]
    spec fn position_is_valid(self) -> bool {
        if self.values@.len() == 0 {
            self.position == 0
        } else {
            self.position < self.values@.len()
        }
    }

    /// The list that is replayed.
    pub closed spec fn values(&self) -> Seq<u8> {
        self.values@
    }

    /// The index in the list of the byte that the next draw uses. It is zero
    /// for an empty list and below the list's length for any other.
    pub closed spec fn position(&self) -> nat {
        self.position as nat
    }

    /// What the next draw from the range from `low` to before `high` gives.
    pub open spec fn upcoming(&self, low: u8, high: u8) -> u8 {
        if self.values().len() == 0 {
            low
        } else {
            nearest_in_range(self.values()[self.position() as int], low, high)
        }
    }

    /// Where the source stands after the next draw.
    pub open spec fn position_after_draw(&self) -> nat {
        if self.position() + 1 < self.values().len() {
            self.position() + 1
        } else {
            0
        }
    }

    /// A source that replays `values` from its first byte.
    pub fn new(values: Vec<u8>) -> (source: Self)
        ensures
            source.values() == values@,
            source.position() == 0,
            source.history() == Seq::<Draw>::empty(),
    {
        FixedSequence { values, position: 0, answered: Ghost(Seq::empty()) }
    }
}

impl RandomByteSource for FixedSequence {
    closed spec fn history(&self) -> Seq<Draw> {
        self.answered@
    }

    fn next_in_range(&mut self, low: u8, high: u8) -> (value: u8)
        ensures
            value == old(self).upcoming(low, high),
            final(self).values() == old(self).values(),
            final(self).position() == old(self).position_after_draw(),
    {
        proof {
            use_type_invariant(&*self);
        }
        let mut value = low;
        if self.values.len() > 0 {
            let byte = self.values[self.position];
            if byte >= high {
                value = high - 1;
            } else if byte > low {
                value = byte;
            }
            if self.position + 1 < self.values.len() {
                self.position = self.position + 1;
            } else {
                self.position = 0;
            }
        }
        self.answered = Ghost(self.answered@.push(Draw { low, high, value }));
        value
    }
}

} // verus!
