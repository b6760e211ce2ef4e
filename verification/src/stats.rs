//! The running latency statistics of one run.
//!
//! Both bounds are kept over the signed latency: the lowest and the highest
//! latency seen among the hits. The sum, and so the average, is over
//! absolute values.

use crate::identity::PacketId;
use crate::table::CorrelationTable;
use crate::time::PacketTime;
use vstd::prelude::*;

verus! {

/// What one inbound record came to: a hit with its latency in microseconds
/// (outbound minus inbound), or a miss.
#[derive(Clone, Copy, Debug, PartialEq, Eq, Structural)]
pub enum Outcome {
    Hit(i64),
    Miss,
}

/// Why no summary can be given.
#[derive(Clone, Copy, Debug, PartialEq, Eq, Structural)]
pub enum StatsError {
    /// No inbound record was a hit, so there is no average latency.
    NoHits,
}

/// The figures reported at the end of a run.
#[derive(Clone, Copy, Debug, PartialEq, Eq, Structural)]
pub struct Summary {
    /// Sum of the absolute latencies over the number of hits, rounded down.
    pub average_latency: u64,
    /// Highest latency minus lowest latency.
    pub jitter: u64,
    /// Number of inbound records.
    pub packet_count: u64,
    /// Number of inbound records that were misses.
    pub miss_count: u64,
    /// Share of the misses among the inbound records, in hundredths of a
    /// percent, rounded down.
    pub miss_basis_points: u64,
}

/// The absolute value of `x`.
pub open spec fn abs(x: int) -> nat {
    if x < 0 {
        (-x) as nat
    } else {
        x as nat
    }
}

/// The statistics as numbers without bounds.
pub struct Tally {
    /// Sum of the absolute latencies of the hits.
    pub sum: nat,
    /// Lowest latency of a hit; 0 while there is none.
    pub lowest: int,
    /// Highest latency of a hit; 0 while there is none.
    pub highest: int,
    pub hits: nat,
    pub misses: nat,
    pub total: nat,
}

impl Tally {
    /// The statistics before the first inbound record.
    pub open spec fn empty() -> Tally {
        Tally { sum: 0, lowest: 0, highest: 0, hits: 0, misses: 0, total: 0 }
    }

    /// The statistics after one more inbound record.
    pub open spec fn record(self, outcome: Outcome) -> Tally {
        match outcome {
            Outcome::Hit(latency) => Tally {
                sum: self.sum + abs(latency as int),
                lowest: if self.hits == 0 || latency < self.lowest {
                    latency as int
                } else {
                    self.lowest
                },
                highest: if self.hits == 0 || latency > self.highest {
                    latency as int
                } else {
                    self.highest
                },
                hits: self.hits + 1,
                misses: self.misses,
                total: self.total + 1,
            },
            Outcome::Miss => Tally { misses: self.misses + 1, total: self.total + 1, ..self },
        }
    }

    /// Every inbound record is a hit or a miss, the bounds are in order, and
    /// the sum is what that many latencies can add up to.
    pub open spec fn consistent(self) -> bool {
        &&& self.hits + self.misses == self.total
        &&& self.lowest <= self.highest
        &&& i64::MIN <= self.lowest
        &&& self.highest <= i64::MAX
        &&& self.hits == 0 ==> self.lowest == 0 && self.highest == 0 && self.sum == 0
        &&& self.sum <= self.hits * 0x8000_0000_0000_0000
    }

    /// The summary of a run, or the reason why there is none.
    pub open spec fn summary(self) -> Result<Summary, StatsError> {
        if self.hits == 0 {
            Err(StatsError::NoHits)
        } else {
            Ok(
                Summary {
                    average_latency: (self.sum / self.hits) as u64,
                    jitter: (self.highest - self.lowest) as u64,
                    packet_count: self.total as u64,
                    miss_count: self.misses as u64,
                    miss_basis_points: (self.misses * 10_000 / self.total) as u64,
                },
            )
        }
    }
}

/// What an inbound record comes to against a table of outbound records.
pub open spec fn outcome_of(
    table: Map<PacketId, PacketTime>,
    id: PacketId,
    time: PacketTime,
) -> Outcome {
    if table.contains_key(id) {
        Outcome::Hit(PacketTime::spec_diff(table[id], time) as i64)
    } else {
        Outcome::Miss
    }
}

/// The running statistics of one run: made at its start, fed once for each
/// inbound record, summed up at its end.
pub struct LatencyStats {
    latency_sum: u128,
    latency_min: i64,
    latency_max: i64,
    hit_count: u64,
    miss_count: u64,
    packet_count: u64,
}

impl View for LatencyStats {
    type V = Tally;

    closed spec fn view(&self) -> Tally {
        Tally {
            sum: self.latency_sum as nat,
            lowest: self.latency_min as int,
            highest: self.latency_max as int,
            hits: self.hit_count as nat,
            misses: self.miss_count as nat,
            total: self.packet_count as nat,
        }
    }
}

impl LatencyStats {
    #[verifier::type_invariant]
    spec fn well_formed(self) -> bool {
        self@.consistent()
    }

    /// The statistics of a run that has seen no inbound record yet.
    pub fn new() -> (stats: Self)
        ensures
            stats@ == Tally::empty(),
    {
        LatencyStats {
            latency_sum: 0,
            latency_min: 0,
            latency_max: 0,
            hit_count: 0,
            miss_count: 0,
            packet_count: 0,
        }
    }

    /// Number of inbound records that were hits.
    pub fn hit_count(&self) -> (n: u64)
        ensures
            n == self@.hits,
    {
        self.hit_count
    }

    /// Number of inbound records that were misses.
    pub fn miss_count(&self) -> (n: u64)
        ensures
            n == self@.misses,
    {
        self.miss_count
    }

    /// Number of inbound records.
    pub fn packet_count(&self) -> (n: u64)
        ensures
            n == self@.total,
            n == self@.hits + self@.misses,
            self@.consistent(),
    {
        proof {
            use_type_invariant(self);
        }
        self.packet_count
    }

    /// Takes one more inbound record into the statistics.
    pub fn record(&mut self, outcome: Outcome)
        requires
            old(self)@.total < u64::MAX,
        ensures
            final(self)@ == old(self)@.record(outcome),
    {
        proof {
            use_type_invariant(&*self);
        }
        match outcome {
            Outcome::Hit(latency) => {
                let magnitude: u128 = if latency < 0 {
                    (-(latency as i128)) as u128
                } else {
                    latency as u128
                };
                assert(self.latency_sum + magnitude <= (self.hit_count + 1) * 0x8000_0000_0000_0000)
                    by (nonlinear_arith)
                    requires
                        self.latency_sum <= self.hit_count * 0x8000_0000_0000_0000,
                        magnitude <= 0x8000_0000_0000_0000,
                ;
                assert((self.hit_count + 1) * 0x8000_0000_0000_0000 <= u128::MAX)
                    by (nonlinear_arith)
                    requires
                        self.hit_count < 0x1_0000_0000_0000_0000,
                ;
                let first = self.hit_count == 0;
                *self = LatencyStats {
                    latency_sum: self.latency_sum + magnitude,
                    latency_min: if first || latency < self.latency_min {
                        latency
                    } else {
                        self.latency_min
                    },
                    latency_max: if first || latency > self.latency_max {
                        latency
                    } else {
                        self.latency_max
                    },
                    hit_count: self.hit_count + 1,
                    miss_count: self.miss_count,
                    packet_count: self.packet_count + 1,
                };
            },
            Outcome::Miss => {
                *self = LatencyStats {
                    latency_sum: self.latency_sum,
                    latency_min: self.latency_min,
                    latency_max: self.latency_max,
                    hit_count: self.hit_count,
                    miss_count: self.miss_count + 1,
                    packet_count: self.packet_count + 1,
                };
            },
        }
    }

    /// Looks one inbound record up in the table of outbound records, takes
    /// its entry out if there is one, and records the outcome.
    pub fn observe(&mut self, table: &mut CorrelationTable, id: PacketId, time: PacketTime) -> (outcome:
        Outcome)
        requires
            old(self)@.total < u64::MAX,
        ensures
            outcome == outcome_of(old(table)@, id, time),
            final(table)@ == old(table)@.remove(id),
            final(self)@ == old(self)@.record(outcome),
    {
        let outcome = match table.take(&id) {
            Some(sent) => Outcome::Hit(PacketTime::diff(sent, time)),
            None => Outcome::Miss,
        };
        self.record(outcome);
        outcome
    }

    /// The figures of the run. Without a hit there is no average, and the
    /// run has no summary.
    pub fn summary(&self) -> (summary: Result<Summary, StatsError>)
        ensures
            summary == self@.summary(),
            summary is Err <==> self@.hits == 0,
            summary matches Ok(s) ==> {
                &&& s.average_latency == self@.sum / self@.hits
                &&& s.jitter == self@.highest - self@.lowest
                &&& s.packet_count == self@.total
                &&& s.miss_count == self@.misses
                &&& s.miss_basis_points == self@.misses * 10_000 / self@.total
            },
    {
        proof {
            use_type_invariant(self);
        }
        if self.hit_count == 0 {
            return Err(StatsError::NoHits);
        }
        let hits: u128 = self.hit_count as u128;
        assert(self.latency_sum / hits <= 0x8000_0000_0000_0000) by (nonlinear_arith)
            requires
                self.latency_sum <= hits * 0x8000_0000_0000_0000,
                hits > 0,
        ;
        let average: u128 = self.latency_sum / hits;
        let spread: i128 = self.latency_max as i128 - self.latency_min as i128;
        let misses: u128 = self.miss_count as u128;
        let total: u128 = self.packet_count as u128;
        assert(misses * 10_000 / (total as int) <= 10_000) by (nonlinear_arith)
            requires
                misses <= total,
                total > 0,
        ;
        let share: u128 = misses * 10_000 / total;
        Ok(
            Summary {
                average_latency: average as u64,
                jitter: spread as u64,
                packet_count: self.packet_count,
                miss_count: self.miss_count,
                miss_basis_points: share as u64,
            },
        )
    }
}

} // verus!
