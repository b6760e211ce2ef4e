//! Correlation of whole record streams: the outbound records are gathered
//! into a table, and each inbound record is then held against it.

use crate::identity::PacketId;
use crate::stats::{outcome_of, LatencyStats, Outcome, Tally};
use crate::table::CorrelationTable;
use crate::time::PacketTime;
use vstd::prelude::*;

verus! {

/// The table that a stream of outbound records leaves: for each identity the
/// timestamp of its last record.
pub open spec fn table_of(records: Seq<(PacketId, PacketTime)>) -> Map<PacketId, PacketTime>
    decreases records.len(),
{
    if records.len() == 0 {
        Map::empty()
    } else {
        table_of(records.drop_last()).insert(records.last().0, records.last().1)
    }
}

/// Whether one of the first `n` records of `inbound` has the identity `id`.
pub open spec fn seen_before(inbound: Seq<(PacketId, PacketTime)>, n: int, id: PacketId) -> bool {
    exists|j: int| 0 <= j < n && j < inbound.len() && (#[trigger] inbound[j]).0 == id
}

/// What is left of `table` after the first `n` records of `inbound`: the
/// entries whose identity none of them had.
pub open spec fn remaining(
    table: Map<PacketId, PacketTime>,
    inbound: Seq<(PacketId, PacketTime)>,
    n: int,
) -> Map<PacketId, PacketTime> {
    Map::new(
        |id: PacketId| table.contains_key(id) && !seen_before(inbound, n, id),
        |id: PacketId| table[id],
    )
}

/// What the inbound record at place `i` comes to: a hit if the table holds
/// its identity and no earlier inbound record had it, a miss otherwise.
pub open spec fn outcome_at(
    table: Map<PacketId, PacketTime>,
    inbound: Seq<(PacketId, PacketTime)>,
    i: int,
) -> Outcome {
    outcome_of(remaining(table, inbound, i), inbound[i].0, inbound[i].1)
}

/// The outcomes of a stream of inbound records against `table`, in order.
pub open spec fn outcomes_of(
    table: Map<PacketId, PacketTime>,
    inbound: Seq<(PacketId, PacketTime)>,
) -> Seq<Outcome> {
    Seq::new(inbound.len(), |i: int| outcome_at(table, inbound, i))
}

/// The statistics of a sequence of outcomes.
pub open spec fn tally_of(outcomes: Seq<Outcome>) -> Tally
    decreases outcomes.len(),
{
    if outcomes.len() == 0 {
        Tally::empty()
    } else {
        tally_of(outcomes.drop_last()).record(outcomes.last())
    }
}

/// Gathers a stream of outbound records into a correlation table. Of two
/// records with one identity the later one stays.
pub fn build_table(outbound: &Vec<(PacketId, PacketTime)>) -> (table: CorrelationTable)
    ensures
        table@ == table_of(outbound@),
{
    let mut table = CorrelationTable::new();
    let mut i: usize = 0;
    while i < outbound.len()
        invariant
            i <= outbound.len(),
            table@ == table_of(outbound@.take(i as int)),
        decreases outbound.len() - i,
    {
        let (id, time) = outbound[i];
        table.insert(id, time);
        proof {
            assert(outbound@.take(i + 1).drop_last() == outbound@.take(i as int));
        }
        i += 1;
    }
    proof {
        assert(outbound@.take(outbound.len() as int) == outbound@);
    }
    table
}

/// Holds a stream of inbound records against the table of outbound records.
/// Each entry of the table answers the first inbound record with its
/// identity and is then gone. Returns the outcome of each inbound record and
/// the statistics of them all.
pub fn correlate(table: &mut CorrelationTable, inbound: &Vec<(PacketId, PacketTime)>) -> (result: (
    Vec<Outcome>,
    LatencyStats,
))
    ensures
        result.0@ == outcomes_of(old(table)@, inbound@),
        result.1@ == tally_of(result.0@),
        final(table)@ == remaining(old(table)@, inbound@, inbound@.len() as int),
{
    let ghost start = table@;
    let mut outcomes: Vec<Outcome> = Vec::new();
    let mut stats = LatencyStats::new();
    let mut i: usize = 0;
    proof {
        assert(table@ =~= remaining(start, inbound@, 0));
    }
    while i < inbound.len()
        invariant
            i <= inbound.len(),
            table@ == remaining(start, inbound@, i as int),
            outcomes@ == outcomes_of(start, inbound@).take(i as int),
            stats@ == tally_of(outcomes@),
            stats@.total == i,
        decreases inbound.len() - i,
    {
        let (id, time) = inbound[i];
        let ghost before = outcomes@;
        let outcome = stats.observe(table, id, time);
        outcomes.push(outcome);
        proof {
            assert(outcomes@.drop_last() == before);
            assert(outcomes@ =~= outcomes_of(start, inbound@).take(i + 1));
            assert forall|k: PacketId| seen_before(inbound@, i + 1, k) <==> (seen_before(
                inbound@,
                i as int,
                k,
            ) || k == id) by {
                if seen_before(inbound@, i as int, k) {
                    let j = choose|j: int|
                        0 <= j < i && j < inbound@.len() && (#[trigger] inbound@[j]).0 == k;
                    assert(0 <= j < i + 1 && inbound@[j].0 == k);
                }
                if k == id {
                    assert(inbound@[i as int].0 == k);
                }
            }
            assert(table@ =~= remaining(start, inbound@, i + 1));
        }
        i += 1;
    }
    proof {
        assert(outcomes_of(start, inbound@).take(inbound.len() as int) == outcomes_of(
            start,
            inbound@,
        ));
    }
    (outcomes, stats)
}

} // verus!
