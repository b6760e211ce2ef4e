use vstd::prelude::*;

verus! {

/// The capture timestamp of one record: whole seconds and microseconds.
#[derive(Clone, Copy, Debug, PartialEq, Eq, Structural, Hash)]
pub struct PacketTime {
    pub sec: u32,
    pub usec: u32,
}

/// Microseconds in one second.
pub const MICROS_PER_SEC: i64 = 1_000_000;

/// The largest magnitude a difference of two timestamps can have.
pub open spec fn max_latency() -> int {
    4_294_967_295int * 1_000_000 + 4_294_967_295
}

impl PacketTime {
    /// The timestamp as a count of microseconds.
    pub open spec fn micros(self) -> int {
        self.sec as int * 1_000_000 + self.usec as int
    }

    /// `t1 - t2` in microseconds.
    pub open spec fn spec_diff(t1: Self, t2: Self) -> int {
        t1.micros() - t2.micros()
    }

    /// The signed distance in microseconds from `t2` to `t1`.
    pub fn diff(t1: Self, t2: Self) -> (latency: i64)
        ensures
            latency as int == Self::spec_diff(t1, t2),
            -max_latency() <= latency as int <= max_latency(),
    {
        let a: i64 = t1.sec as i64 * MICROS_PER_SEC + t1.usec as i64;
        let b: i64 = t2.sec as i64 * MICROS_PER_SEC + t2.usec as i64;
        a - b
    }
}

} // verus!
