//! The correlation table: a consume-once map from identity to timestamp.
//!
//! Entries are kept in buckets under a number derived from the identity, so
//! that a lookup reads one bucket only.

use crate::identity::PacketId;
use crate::time::PacketTime;
use std::collections::HashMap;
use vstd::prelude::*;

verus! {

/// Three header fields folded into one number.
spec fn fold_of(a: u32, b: u32, c: u16) -> u64 {
    (((a as int * 0x1_0000_0000 + b as int) % 0x1_0000_0000_0000) * 0x1_0000 + c as int) as u64
}

/// The number under which an identity is kept.
spec fn digest_of(id: PacketId) -> u64 {
    match id {
        PacketId::Tcp { port_src, tcp_seq, tcp_ack, .. } => fold_of(tcp_seq, tcp_ack, port_src),
        PacketId::Icmp { ip_src, ip_dst, checksum } => fold_of(ip_src, ip_dst, checksum),
    }
}

/// Whether no identity stands at two places of `s`.
spec fn keys_distinct(s: Seq<(PacketId, PacketTime)>) -> bool {
    forall|i: int, j: int| 0 <= i < j < s.len() ==> (#[trigger] s[i]).0 != (#[trigger] s[j]).0
}

/// Whether `id` stands at place `i` of `s`.
spec fn stands_at(s: Seq<(PacketId, PacketTime)>, id: PacketId, i: int) -> bool {
    0 <= i < s.len() && s[i].0 == id
}

/// Whether `id` stands somewhere in `s`.
spec fn has_key(s: Seq<(PacketId, PacketTime)>, id: PacketId) -> bool {
    exists|i: int| stands_at(s, id, i)
}

/// A place of `s` where `id` stands, if there is one.
spec fn place_of(s: Seq<(PacketId, PacketTime)>, id: PacketId) -> int {
    choose|i: int| stands_at(s, id, i)
}

/// The map that the entries of one bucket stand for.
spec fn map_of(s: Seq<(PacketId, PacketTime)>) -> Map<PacketId, PacketTime> {
    Map::new(|id: PacketId| has_key(s, id), |id: PacketId| s[place_of(s, id)].1)
}

/// Whether `s` can be the bucket for `digest`: no identity stands in it
/// twice, and each is kept under `digest`.
spec fn bucket_ok(s: Seq<(PacketId, PacketTime)>, digest: u64) -> bool {
    &&& keys_distinct(s)
    &&& forall|i: int| 0 <= i < s.len() ==> digest_of((#[trigger] s[i]).0) == digest
}

/// Whether every bucket is in order.
spec fn buckets_ok(buckets: Map<u64, Vec<(PacketId, PacketTime)>>) -> bool {
    forall|d: u64| buckets.contains_key(d) ==> bucket_ok((#[trigger] buckets[d])@, d)
}

/// The map that a set of buckets stands for.
spec fn lookup(buckets: Map<u64, Vec<(PacketId, PacketTime)>>) -> Map<PacketId, PacketTime> {
    Map::new(
        |id: PacketId|
            buckets.contains_key(digest_of(id)) && has_key(buckets[digest_of(id)]@, id),
        |id: PacketId| map_of(buckets[digest_of(id)]@)[id],
    )
}

/// With distinct keys, each entry is what the map holds for its identity.
proof fn lemma_entry(s: Seq<(PacketId, PacketTime)>, i: int)
    requires
        keys_distinct(s),
        0 <= i < s.len(),
    ensures
        map_of(s).contains_key(s[i].0),
        map_of(s)[s[i].0] == s[i].1,
{
    let id = s[i].0;
    assert(stands_at(s, id, i));
    let j = place_of(s, id);
    assert(stands_at(s, id, j));
    if j < i {
        assert(s[j].0 != s[i].0);
    } else if i < j {
        assert(s[i].0 != s[j].0);
    }
}

/// Every identity of the map stands at some place of the entries.
proof fn lemma_place(s: Seq<(PacketId, PacketTime)>, id: PacketId) -> (i: int)
    requires
        map_of(s).contains_key(id),
    ensures
        stands_at(s, id, i),
{
    place_of(s, id)
}

/// A bucket without entries stands for the empty map.
proof fn lemma_none(s: Seq<(PacketId, PacketTime)>)
    requires
        s.len() == 0,
    ensures
        map_of(s) == Map::<PacketId, PacketTime>::empty(),
{
    assert forall|id: PacketId| !has_key(s, id) by {
        if has_key(s, id) {
            let i = choose|i: int| stands_at(s, id, i);
            assert(stands_at(s, id, i));
        }
    }
    assert(map_of(s) =~= Map::<PacketId, PacketTime>::empty());
}

/// Writing an entry over the one with its identity, or behind the others
/// where there is none, is an insertion into the map.
proof fn lemma_put(
    before: Seq<(PacketId, PacketTime)>,
    after: Seq<(PacketId, PacketTime)>,
    id: PacketId,
    time: PacketTime,
    slot: int,
)
    requires
        keys_distinct(before),
        0 <= slot <= before.len(),
        slot < before.len() ==> before[slot].0 == id && after == before.update(slot, (id, time)),
        slot == before.len() ==> !has_key(before, id) && after == before.push((id, time)),
    ensures
        keys_distinct(after),
        map_of(after) == map_of(before).insert(id, time),
{
    assert(after[slot] == (id, time));
    assert forall|a: int, b: int| 0 <= a < b < after.len() implies (#[trigger] after[a]).0 != (
    #[trigger] after[b]).0 by {
        if b < before.len() {
            assert(before[a].0 != before[b].0);
        } else {
            assert(!stands_at(before, id, a));
        }
    }
    assert forall|k: PacketId| #[trigger]
        map_of(after).contains_key(k) <==> (k == id || map_of(before).contains_key(k)) by {
        if map_of(after).contains_key(k) {
            let j = lemma_place(after, k);
            if k != id {
                assert(stands_at(before, k, j));
            }
        }
        if k == id {
            assert(stands_at(after, id, slot));
        } else if map_of(before).contains_key(k) {
            let j = lemma_place(before, k);
            assert(stands_at(after, k, j));
        }
    }
    assert forall|k: PacketId| #[trigger] map_of(after).contains_key(k) implies map_of(after)[k]
        == map_of(before).insert(id, time)[k] by {
        let j = lemma_place(after, k);
        lemma_entry(after, j);
        if k != id {
            assert(stands_at(before, k, j));
            lemma_entry(before, j);
        } else {
            lemma_entry(after, slot);
        }
    }
    assert(map_of(after) =~= map_of(before).insert(id, time));
}

/// Taking the entry at place `i` out is a removal from the map.
proof fn lemma_drop(before: Seq<(PacketId, PacketTime)>, i: int)
    requires
        keys_distinct(before),
        0 <= i < before.len(),
    ensures
        keys_distinct(before.remove(i)),
        map_of(before.remove(i)) == map_of(before).remove(before[i].0),
{
    let after = before.remove(i);
    let id = before[i].0;
    assert forall|a: int| 0 <= a < after.len() implies #[trigger] after[a] == before[if a < i {
        a
    } else {
        a + 1
    }] by {}
    assert forall|a: int, b: int| 0 <= a < b < after.len() implies (#[trigger] after[a]).0 != (
    #[trigger] after[b]).0 by {
        let a0 = if a < i { a } else { a + 1 };
        let b0 = if b < i { b } else { b + 1 };
        assert(before[a0].0 != before[b0].0);
    }
    assert forall|k: PacketId| #[trigger]
        map_of(after).contains_key(k) <==> (k != id && map_of(before).contains_key(k)) by {
        if map_of(after).contains_key(k) {
            let j = lemma_place(after, k);
            let j0 = if j < i { j } else { j + 1 };
            assert(stands_at(before, k, j0));
            if j0 < i {
                assert(before[j0].0 != before[i].0);
            } else {
                assert(before[i].0 != before[j0].0);
            }
        }
        if k != id && map_of(before).contains_key(k) {
            let j0 = lemma_place(before, k);
            let j = if j0 < i { j0 } else { j0 - 1 };
            assert(stands_at(after, k, j));
        }
    }
    assert forall|k: PacketId| #[trigger] map_of(after).contains_key(k) implies map_of(after)[k]
        == map_of(before)[k] by {
        let j = lemma_place(after, k);
        let j0 = if j < i { j } else { j + 1 };
        lemma_entry(after, j);
        lemma_entry(before, j0);
    }
    assert(map_of(after) =~= map_of(before).remove(id));
}

/// Folds three header fields into one number.
fn fold(a: u32, b: u32, c: u16) -> (d: u64)
    ensures
        d == fold_of(a, b, c),
{
    let both: u64 = a as u64 * 0x1_0000_0000 + b as u64;
    (both % 0x1_0000_0000_0000) * 0x1_0000 + c as u64
}

/// The number under which an identity is kept.
fn digest(id: &PacketId) -> (d: u64)
    ensures
        d == digest_of(*id),
{
    match id {
        PacketId::Tcp { port_src, tcp_seq, tcp_ack, .. } => fold(*tcp_seq, *tcp_ack, *port_src),
        PacketId::Icmp { ip_src, ip_dst, checksum } => fold(*ip_src, *ip_dst, *checksum),
    }
}

/// The place of `id` in a bucket.
fn position(bucket: &Vec<(PacketId, PacketTime)>, id: &PacketId) -> (place: Option<usize>)
    ensures
        match place {
            Some(i) => stands_at(bucket@, *id, i as int),
            None => !has_key(bucket@, *id),
        },
{
    let mut i: usize = 0;
    while i < bucket.len()
        invariant
            i <= bucket.len(),
            forall|j: int| 0 <= j < i ==> !stands_at(bucket@, *id, j),
        decreases bucket.len() - i,
    {
        if bucket[i].0 == *id {
            return Some(i);
        }
        i += 1;
    }
    None
}

/// The outbound records that still wait for their inbound counterpart.
pub struct CorrelationTable {
    buckets: HashMap<u64, Vec<(PacketId, PacketTime)>>,
}

impl View for CorrelationTable {
    type V = Map<PacketId, PacketTime>;

    closed spec fn view(&self) -> Map<PacketId, PacketTime> {
        lookup(self.buckets@)
    }
}

impl CorrelationTable {
    #[verifier::type_invariant]
    spec fn well_formed(self) -> bool {
        buckets_ok(self.buckets@)
    }

    /// A table without entries.
    pub fn new() -> (table: Self)
        ensures
            table@ == Map::<PacketId, PacketTime>::empty(),
    {
        let table = CorrelationTable { buckets: HashMap::new() };
        proof {
            assert(table@ =~= Map::<PacketId, PacketTime>::empty());
        }
        table
    }

    /// Whether the table holds an entry for `id`.
    pub fn contains(&self, id: &PacketId) -> (found: bool)
        ensures
            found == self@.contains_key(*id),
    {
        let d = digest(id);
        match self.buckets.get(&d) {
            Some(bucket) => position(bucket, id).is_some(),
            None => false,
        }
    }

    /// Records `time` for `id`. An earlier entry for the same identity is
    /// overwritten.
    pub fn insert(&mut self, id: PacketId, time: PacketTime)
        ensures
            final(self)@ == old(self)@.insert(id, time),
    {
        proof {
            use_type_invariant(&*self);
        }
        let d = digest(&id);
        let mut buckets: HashMap<u64, Vec<(PacketId, PacketTime)>> = HashMap::new();
        std::mem::swap(&mut self.buckets, &mut buckets);
        let ghost start = buckets@;
        let mut bucket = match buckets.remove(&d) {
            Some(bucket) => bucket,
            None => Vec::new(),
        };
        let ghost before = bucket@;
        let place = position(&bucket, &id);
        match place {
            Some(i) => {
                bucket.set(i, (id, time));
            },
            None => {
                bucket.push((id, time));
            },
        }
        proof {
            let slot = match place {
                Some(i) => i as int,
                None => before.len() as int,
            };
            if start.contains_key(d) {
                assert(bucket_ok(start[d]@, d));
            }
            lemma_put(before, bucket@, id, time, slot);
            assert(bucket_ok(bucket@, d)) by {
                assert forall|i: int| 0 <= i < bucket@.len() implies digest_of(
                    (#[trigger] bucket@[i]).0,
                ) == d by {
                    if i != slot {
                        assert(bucket@[i] == before[i]);
                    }
                }
            }
            if !start.contains_key(d) {
                lemma_none(before);
            }
        }
        buckets.insert(d, bucket);
        proof {
            assert(buckets_ok(buckets@)) by {
                assert forall|e: u64| buckets@.contains_key(e) implies bucket_ok(
                    (#[trigger] buckets@[e])@,
                    e,
                ) by {
                    if e != d {
                        assert(start.contains_key(e));
                        assert(buckets@[e] == start[e]);
                    }
                }
            }
            assert forall|k: PacketId|
                lookup(buckets@).contains_key(k) <==> #[trigger] lookup(start).insert(
                    id,
                    time,
                ).contains_key(k) by {
                if digest_of(k) == d {
                    assert(map_of(bucket@).contains_key(k) <==> has_key(bucket@, k));
                    assert(map_of(before).contains_key(k) <==> has_key(before, k));
                }
            }
            assert forall|k: PacketId| #[trigger]
                lookup(buckets@).contains_key(k) implies lookup(buckets@)[k] == lookup(
                start,
            ).insert(id, time)[k] by {
                let e = digest_of(k);
                if e == d {
                    assert(buckets@[e] == bucket);
                    assert(map_of(bucket@).contains_key(k));
                    if k != id {
                        assert(map_of(before).contains_key(k));
                        assert(has_key(before, k));
                        assert(start.contains_key(d) && before == start[d]@);
                    }
                } else {
                    assert(buckets@[e] == start[e]);
                }
            }
            assert(lookup(buckets@) =~= lookup(start).insert(id, time));
        }
        self.buckets = buckets;
    }

    /// Looks `id` up and removes its entry, so that one outbound record
    /// answers at most one inbound record.
    pub fn take(&mut self, id: &PacketId) -> (taken: Option<PacketTime>)
        ensures
            taken == (if old(self)@.contains_key(*id) {
                Some(old(self)@[*id])
            } else {
                None
            }),
            final(self)@ == old(self)@.remove(*id),
    {
        proof {
            use_type_invariant(&*self);
        }
        let d = digest(id);
        let mut buckets: HashMap<u64, Vec<(PacketId, PacketTime)>> = HashMap::new();
        std::mem::swap(&mut self.buckets, &mut buckets);
        let ghost start = buckets@;
        let mut bucket = match buckets.remove(&d) {
            Some(bucket) => bucket,
            None => Vec::new(),
        };
        let ghost before = bucket@;
        proof {
            if start.contains_key(d) {
                assert(bucket_ok(start[d]@, d));
            } else {
                lemma_none(before);
            }
        }
        let taken = match position(&bucket, id) {
            Some(i) => {
                let entry = bucket.remove(i);
                proof {
                    lemma_entry(before, i as int);
                    lemma_drop(before, i as int);
                    assert forall|a: int| 0 <= a < bucket@.len() implies digest_of(
                        (#[trigger] bucket@[a]).0,
                    ) == d by {
                        assert(bucket@[a] == before[if a < i { a } else { a + 1 }]);
                    }
                }
                Some(entry.1)
            },
            None => {
                proof {
                    assert(map_of(before) =~= map_of(before).remove(*id));
                }
                None
            },
        };
        if bucket.len() > 0 {
            buckets.insert(d, bucket);
        }
        proof {
            assert(buckets_ok(buckets@)) by {
                assert forall|e: u64| buckets@.contains_key(e) implies bucket_ok(
                    (#[trigger] buckets@[e])@,
                    e,
                ) by {
                    if e != d {
                        assert(start.contains_key(e));
                        assert(buckets@[e] == start[e]);
                    }
                }
            }
            if bucket@.len() == 0 {
                lemma_none(bucket@);
            }
            assert forall|k: PacketId|
                lookup(buckets@).contains_key(k) <==> #[trigger] lookup(start).remove(
                    *id,
                ).contains_key(k) by {
                if digest_of(k) == d {
                    assert(map_of(bucket@).contains_key(k) <==> has_key(bucket@, k));
                    assert(map_of(before).contains_key(k) <==> has_key(before, k));
                }
            }
            assert forall|k: PacketId| #[trigger]
                lookup(buckets@).contains_key(k) implies lookup(buckets@)[k] == lookup(
                start,
            ).remove(*id)[k] by {
                let e = digest_of(k);
                if e == d {
                    assert(buckets@[e] == bucket);
                    assert(map_of(bucket@).contains_key(k));
                    assert(map_of(before).contains_key(k));
                    assert(has_key(before, k));
                    assert(start.contains_key(d) && before == start[d]@);
                } else {
                    assert(buckets@[e] == start[e]);
                }
            }
            assert(lookup(buckets@) =~= lookup(start).remove(*id));
            assert(lookup(start).contains_key(*id) <==> map_of(before).contains_key(*id));
        }
        self.buckets = buckets;
        taken
    }
}

} // verus!
