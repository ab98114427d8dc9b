//! Clocks: marks in time and the durations between them, with a manual
//! clock for tests and simulations.

use vstd::prelude::*;

verus! {

/// A span of time.
pub trait Duration {
    /// The span in whole milliseconds.
    fn as_millis(&self) -> u64;
}

/// A source of time.
pub trait Clock {
    /// A point in time taken from this clock.
    type Mark;

    /// A span of time measured by this clock.
    type Duration: Duration;

    /// Whether the clock has reached the time of `mark`.
    spec fn has_reached(&self, mark: Self::Mark) -> bool;

    /// The present time.
    fn now(&self) -> Self::Mark;

    /// The time elapsed since `from`.
    fn duration_since(&self, from: Self::Mark) -> Self::Duration
        requires
            self.has_reached(from),
    ;
}

/// A point in time of a [`FakeClock`], in milliseconds since its start.
pub struct FakeMark(u64);

/// A span of time of a [`FakeClock`], in milliseconds.
pub struct FakeDuration(u64);

impl View for FakeMark {
    type V = nat;

    closed spec fn view(&self) -> nat {
        self.0 as nat
    }
}

impl View for FakeDuration {
    type V = nat;

    closed spec fn view(&self) -> nat {
        self.0 as nat
    }
}

impl Duration for FakeDuration {
    fn as_millis(&self) -> (ms: u64)
        ensures
            ms == self@,
    {
        self.0
    }
}

/// A clock that moves only when told to, in milliseconds since its start.
pub struct FakeClock {
    current: u64,
}

impl View for FakeClock {
    type V = nat;

    closed spec fn view(&self) -> nat {
        self.current as nat
    }
}

impl FakeClock {
    /// A clock at time zero.
    pub fn new() -> (c: FakeClock)
        ensures
            c@ == 0,
    {
        Self { current: 0 }
    }

    /// Moves the clock forward by `advance` milliseconds.
    pub fn advance_millis(&mut self, advance: u64)
        requires
            old(self)@ + advance <= u64::MAX,
        ensures
            final(self)@ == old(self)@ + advance,
    {
        self.current = self.current + advance;
    }
}

impl Clock for FakeClock {
    type Mark = FakeMark;

    type Duration = FakeDuration;

    open spec fn has_reached(&self, mark: FakeMark) -> bool {
        mark@ <= self@
    }

    fn now(&self) -> (m: FakeMark)
        ensures
            m@ == self@,
    {
        FakeMark(self.current)
    }

    fn duration_since(&self, from: FakeMark) -> (d: FakeDuration)
        ensures
            d@ == self@ - from@,
    {
        FakeDuration(self.current - from.0)
    }
}

/// The total of a sequence of advances, in milliseconds.
pub open spec fn sum_millis(advances: Seq<u64>) -> nat
    decreases advances.len(),
{
    if advances.len() == 0 {
        0
    } else {
        sum_millis(advances.drop_last()) + advances.last() as nat
    }
}

/// A mark taken from a fake clock that is then advanced by each of
/// `advances` in turn (`clocks[i + 1]` is `clocks[i]` advanced by
/// `advances[i]`) is reached, and the duration since it is the total of the
/// advances; with no advance it is zero.
pub proof fn lemma_duration_after_advances(mark: FakeMark, clocks: Seq<FakeClock>, advances: Seq<u64>)
    requires
        clocks.len() == advances.len() + 1,
        clocks[0]@ == mark@,
        forall|i: int| 0 <= i < advances.len() ==> clocks[i + 1]@ == clocks[i]@ + #[trigger] advances[i],
    ensures
        clocks.last().has_reached(mark),
        clocks.last()@ - mark@ == sum_millis(advances),
    decreases advances.len(),
{
    if advances.len() > 0 {
        let n = advances.len() - 1;
        lemma_duration_after_advances(mark, clocks.drop_last(), advances.drop_last());
        assert(clocks[n + 1]@ == clocks[n]@ + advances[n]);
    }
}

} // verus!
