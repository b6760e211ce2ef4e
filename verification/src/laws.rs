//! Laws that relate the parts of the library to each other.

use crate::correlate::{outcome_at, outcomes_of, remaining, seen_before, table_of, tally_of};
use crate::headers::{be16, ethernet_payload_of};
use crate::identity::{carries_ipv4, frame_identity, PacketId};
use crate::source::{constraint_holds, filter_accepts, frame_record, records_of};
use crate::stats::{abs, Outcome, StatsError, Tally};
use crate::time::PacketTime;
use vstd::prelude::*;

verus! {

/// Whether no two records of `records` have the same identity.
pub open spec fn identities_distinct(records: Seq<(PacketId, PacketTime)>) -> bool {
    forall|i: int, j: int|
        0 <= i < j < records.len() ==> (#[trigger] records[i]).0 != (#[trigger] records[j]).0
}

/// Whether every outcome of `outcomes` is a hit with latency zero.
pub open spec fn all_hits_at_zero(outcomes: Seq<Outcome>) -> bool {
    forall|i: int| 0 <= i < outcomes.len() ==> #[trigger] outcomes[i] == Outcome::Hit(0)
}

/// Taking one more inbound record into consistent statistics leaves them
/// consistent: hits and misses still add up to the number of records.
pub proof fn lemma_record_keeps_consistent(tally: Tally, outcome: Outcome)
    requires
        tally.consistent(),
    ensures
        tally.record(outcome).consistent(),
        tally.record(outcome).hits + tally.record(outcome).misses == tally.record(outcome).total,
        tally.record(outcome).total == tally.total + 1,
{
    match outcome {
        Outcome::Hit(latency) => {
            assert(abs(latency as int) <= 0x8000_0000_0000_0000);
            assert((tally.hits + 1) * 0x8000_0000_0000_0000 == tally.hits * 0x8000_0000_0000_0000
                + 0x8000_0000_0000_0000) by (nonlinear_arith);
        },
        Outcome::Miss => {},
    }
}

/// Whatever the outcomes of a run, its statistics are consistent: every
/// inbound record was counted once, as a hit or as a miss.
pub proof fn lemma_hits_and_misses_add_up(outcomes: Seq<Outcome>)
    ensures
        tally_of(outcomes).consistent(),
        tally_of(outcomes).total == outcomes.len(),
        tally_of(outcomes).hits + tally_of(outcomes).misses == outcomes.len(),
    decreases outcomes.len(),
{
    if outcomes.len() > 0 {
        lemma_hits_and_misses_add_up(outcomes.drop_last());
        lemma_record_keeps_consistent(tally_of(outcomes.drop_last()), outcomes.last());
    }
}

/// An inbound record whose identity the table of outbound records does not
/// hold is a miss.
pub proof fn lemma_absent_identity_misses(
    table: Map<PacketId, PacketTime>,
    inbound: Seq<(PacketId, PacketTime)>,
    i: int,
)
    requires
        0 <= i < inbound.len(),
        !table.contains_key(inbound[i].0),
    ensures
        outcomes_of(table, inbound)[i] == Outcome::Miss,
{
}

/// An entry of the table answers at most one inbound record: the first
/// inbound record with an identity that the table holds is a hit, with the
/// outbound time minus its own as latency.
pub proof fn lemma_first_is_hit(
    table: Map<PacketId, PacketTime>,
    inbound: Seq<(PacketId, PacketTime)>,
    i: int,
)
    requires
        0 <= i < inbound.len(),
        table.contains_key(inbound[i].0),
        forall|j: int| 0 <= j < i ==> (#[trigger] inbound[j]).0 != inbound[i].0,
    ensures
        outcomes_of(table, inbound)[i] == Outcome::Hit(
            PacketTime::spec_diff(table[inbound[i].0], inbound[i].1) as i64,
        ),
{
    assert(!seen_before(inbound, i, inbound[i].0));
}

/// An entry of the table answers at most one inbound record: an inbound
/// record that follows another with the same identity is a miss.
pub proof fn lemma_repeated_is_miss(
    table: Map<PacketId, PacketTime>,
    inbound: Seq<(PacketId, PacketTime)>,
    i: int,
    j: int,
)
    requires
        0 <= i < j < inbound.len(),
        inbound[i].0 == inbound[j].0,
    ensures
        outcomes_of(table, inbound)[j] == Outcome::Miss,
{
    assert(seen_before(inbound, j, inbound[j].0));
}

/// What is left of the table after a run holds no identity that an inbound
/// record had.
pub proof fn lemma_taken_entries_are_gone(
    table: Map<PacketId, PacketTime>,
    inbound: Seq<(PacketId, PacketTime)>,
    i: int,
)
    requires
        0 <= i < inbound.len(),
    ensures
        !remaining(table, inbound, inbound.len() as int).contains_key(inbound[i].0),
{
    assert(seen_before(inbound, inbound.len() as int, inbound[i].0));
}

/// The last write wins: the table of a stream holds, under a record's
/// identity, that record's timestamp, if no later record has the identity.
pub proof fn lemma_last_record_wins(records: Seq<(PacketId, PacketTime)>, i: int)
    requires
        0 <= i < records.len(),
        forall|j: int| i < j < records.len() ==> (#[trigger] records[j]).0 != records[i].0,
    ensures
        table_of(records).contains_key(records[i].0),
        table_of(records)[records[i].0] == records[i].1,
    decreases records.len(),
{
    if i < records.len() - 1 {
        let front = records.drop_last();
        assert forall|j: int| i < j < front.len() implies (#[trigger] front[j]).0 != front[i].0 by {
            assert(records[j].0 != records[i].0);
        }
        lemma_last_record_wins(front, i);
        assert(records[records.len() - 1].0 != records[i].0);
    }
}

/// The table of a stream holds no identity but those of its records: what
/// gives no record leaves no entry.
pub proof fn lemma_table_keys_are_record_identities(
    records: Seq<(PacketId, PacketTime)>,
    id: PacketId,
) -> (i: int)
    requires
        table_of(records).contains_key(id),
    ensures
        0 <= i < records.len(),
        records[i].0 == id,
    decreases records.len(),
{
    if records.len() == 0 {
        0
    } else if records.last().0 == id {
        records.len() - 1
    } else {
        lemma_table_keys_are_record_identities(records.drop_last(), id)
    }
}

/// Statistics of outcomes that are all hits count no miss.
proof fn lemma_all_hits(outcomes: Seq<Outcome>)
    requires
        all_hits_at_zero(outcomes),
    ensures
        tally_of(outcomes).misses == 0,
        tally_of(outcomes).hits == outcomes.len(),
        tally_of(outcomes).sum == 0,
    decreases outcomes.len(),
{
    if outcomes.len() > 0 {
        let front = outcomes.drop_last();
        assert(all_hits_at_zero(front)) by {
            assert forall|i: int| 0 <= i < front.len() implies #[trigger] front[i] == Outcome::Hit(
                0,
            ) by {
                assert(outcomes[i] == Outcome::Hit(0));
            }
        }
        lemma_all_hits(front);
        assert(outcomes.last() == outcomes[outcomes.len() - 1]);
    }
}

/// A capture held against itself: where no two of its records share an
/// identity, every record is a hit with latency zero and none is a miss.
pub proof fn lemma_identical_captures(records: Seq<(PacketId, PacketTime)>)
    requires
        identities_distinct(records),
    ensures
        all_hits_at_zero(outcomes_of(table_of(records), records)),
        tally_of(outcomes_of(table_of(records), records)).misses == 0,
        tally_of(outcomes_of(table_of(records), records)).hits == records.len(),
{
    let table = table_of(records);
    let outcomes = outcomes_of(table, records);
    assert forall|i: int| 0 <= i < outcomes.len() implies #[trigger] outcomes[i] == Outcome::Hit(
        0,
    ) by {
        lemma_last_record_wins(records, i);
        assert(!seen_before(records, i, records[i].0)) by {
            if seen_before(records, i, records[i].0) {
                let j = choose|j: int|
                    0 <= j < i && j < records.len() && (#[trigger] records[j]).0 == records[i].0;
                assert(records[j].0 != records[i].0);
            }
        }
        assert(outcomes[i] == outcome_at(table, records, i));
    }
    lemma_all_hits(outcomes);
}

/// A frame that ends at or before the offset of one of the filter's
/// constraints is rejected, whatever bytes it holds.
pub proof fn lemma_short_frame_rejected(bytes: Seq<u8>, filter: Seq<(usize, u8)>, i: int)
    requires
        0 <= i < filter.len(),
        bytes.len() <= filter[i].0,
    ensures
        !filter_accepts(bytes, filter),
{
    assert(!constraint_holds(bytes, filter[i]));
}

/// An empty filter accepts every frame.
pub proof fn lemma_empty_filter_accepts(bytes: Seq<u8>)
    ensures
        filter_accepts(bytes, Seq::<(usize, u8)>::empty()),
{
}

/// A frame that is cut short of an IPv4 header, that carries another network
/// protocol, or whose transport protocol is neither TCP nor ICMP gives no
/// record: the source passes it over, so that it reaches neither the table
/// nor the statistics.
pub proof fn lemma_unrecognised_frame_is_skipped(
    filter: Seq<(usize, u8)>,
    frame: Seq<u8>,
    time: PacketTime,
)
    requires
        frame.len() < 34 || be16(frame, 12) != 0x0800 || (ethernet_payload_of(frame)[9] != 6
            && ethernet_payload_of(frame)[9] != 1),
    ensures
        frame_identity(frame) == Ok::<Option<PacketId>, crate::identity::IdentityError>(None),
        frame_record(filter, frame, time) == Ok::<
            Option<(PacketId, PacketTime)>,
            crate::identity::IdentityError,
        >(None),
{
}

/// A frame gives a record only if it passes the filter and holds, whole, an
/// Ethernet header that announces IPv4, the header of an unfragmented IPv4
/// packet that announces TCP or ICMP, and that transport header. The record
/// then carries the frame's identity and its timestamp.
pub proof fn lemma_record_needs_recognised_frame(
    filter: Seq<(usize, u8)>,
    frame: Seq<u8>,
    time: PacketTime,
    record: (PacketId, PacketTime),
)
    requires
        frame_record(filter, frame, time) == Ok::<
            Option<(PacketId, PacketTime)>,
            crate::identity::IdentityError,
        >(Some(record)),
    ensures
        filter_accepts(frame, filter),
        carries_ipv4(frame),
        ethernet_payload_of(frame)[9] == 6 || ethernet_payload_of(frame)[9] == 1,
        ethernet_payload_of(frame)[9] == 6 ==> frame.len() >= 54 && record.0 is Tcp,
        ethernet_payload_of(frame)[9] == 1 ==> frame.len() >= 38 && record.0 is Icmp,
        frame_identity(frame) == Ok::<Option<PacketId>, crate::identity::IdentityError>(
            Some(record.0),
        ),
        record.1 == time,
{
}

/// A frame that gives no record leaves no trace: the stream of records is
/// the same without it, and with it the table and the statistics made of
/// that stream.
pub proof fn lemma_skipped_frame_leaves_no_trace(
    filter: Seq<(usize, u8)>,
    frames: Seq<(Seq<u8>, PacketTime)>,
    i: int,
)
    requires
        0 <= i < frames.len(),
        frame_record(filter, frames[i].0, frames[i].1) == Ok::<
            Option<(PacketId, PacketTime)>,
            crate::identity::IdentityError,
        >(None),
    ensures
        records_of(filter, frames.remove(i)) == records_of(filter, frames),
    decreases frames.len(),
{
    if i == frames.len() - 1 {
        assert(frames.remove(i) == frames.drop_last());
    } else {
        let front = frames.drop_last();
        assert(frames.remove(i).drop_last() == front.remove(i));
        assert(frames.remove(i).last() == frames.last());
        lemma_skipped_frame_leaves_no_trace(filter, front, i);
    }
}

/// A frame that the filter rejects gives no record, whatever it holds.
pub proof fn lemma_rejected_frame_is_skipped(
    filter: Seq<(usize, u8)>,
    frame: Seq<u8>,
    time: PacketTime,
)
    requires
        !filter_accepts(frame, filter),
    ensures
        frame_record(filter, frame, time) == Ok::<
            Option<(PacketId, PacketTime)>,
            crate::identity::IdentityError,
        >(None),
{
}

/// A run has a summary exactly when it has a hit.
pub proof fn lemma_summary_needs_a_hit(tally: Tally)
    ensures
        tally.hits == 0 <==> tally.summary() == Err::<crate::stats::Summary, StatsError>(
            StatsError::NoHits,
        ),
        tally.hits > 0 <==> tally.summary() is Ok,
{
}

} // verus!
