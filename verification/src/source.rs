//! The decisions of a capture record source: which frames pass the byte
//! filter, and what to do after each pull on the underlying capture.
//!
//! Pulling on a capture file is for the caller; after each pull it hands over
//! what came back and is told how to go on.

use crate::identity::{frame_identity, IdentityError, PacketId};
use crate::time::PacketTime;
use vstd::prelude::*;

verus! {

/// Whether `bytes` has the expected value at the constraint's offset.
pub open spec fn constraint_holds(bytes: Seq<u8>, constraint: (usize, u8)) -> bool {
    constraint.0 < bytes.len() && bytes[constraint.0 as int] == constraint.1
}

/// Whether every constraint of `filter` holds of `bytes`.
pub open spec fn filter_accepts(bytes: Seq<u8>, filter: Seq<(usize, u8)>) -> bool {
    forall|i: int| 0 <= i < filter.len() ==> constraint_holds(bytes, #[trigger] filter[i])
}

/// What one captured frame contributes to the stream of records.
pub open spec fn frame_record(filter: Seq<(usize, u8)>, frame: Seq<u8>, time: PacketTime) -> Result<
    Option<(PacketId, PacketTime)>,
    IdentityError,
> {
    if !filter_accepts(frame, filter) {
        Ok(None)
    } else {
        match frame_identity(frame) {
            Ok(Some(id)) => Ok(Some((id, time))),
            Ok(None) => Ok(None),
            Err(e) => Err(e),
        }
    }
}

/// A sequence of captured frames as plain values.
pub open spec fn frames_of(frames: Seq<(Vec<u8>, PacketTime)>) -> Seq<(Seq<u8>, PacketTime)> {
    frames.map_values(|frame: (Vec<u8>, PacketTime)| (frame.0@, frame.1))
}

/// The stream of records that a sequence of captured frames gives: the
/// records of its frames in order, or the first error among them.
pub open spec fn records_of(filter: Seq<(usize, u8)>, frames: Seq<(Seq<u8>, PacketTime)>) -> Result<
    Seq<(PacketId, PacketTime)>,
    IdentityError,
>
    decreases frames.len(),
{
    if frames.len() == 0 {
        Ok(Seq::empty())
    } else {
        match records_of(filter, frames.drop_last()) {
            Err(e) => Err(e),
            Ok(front) => match frame_record(filter, frames.last().0, frames.last().1) {
                Err(e) => Err(e),
                Ok(None) => Ok(front),
                Ok(Some(record)) => Ok(front.push(record)),
            },
        }
    }
}

/// An error among the first frames is the error of the whole sequence.
proof fn lemma_first_error_stays(
    filter: Seq<(usize, u8)>,
    frames: Seq<(Seq<u8>, PacketTime)>,
    n: int,
)
    requires
        0 <= n <= frames.len(),
        records_of(filter, frames.take(n)) is Err,
    ensures
        records_of(filter, frames) == records_of(filter, frames.take(n)),
    decreases frames.len(),
{
    if n < frames.len() {
        let front = frames.drop_last();
        assert(front.take(n) == frames.take(n));
        lemma_first_error_stays(filter, front, n);
    } else {
        assert(frames.take(n) == frames);
    }
}

/// What a pull on the capture came back with.
pub enum Pull<'a> {
    /// The capture's file header.
    Header,
    /// One captured frame and its timestamp.
    Record { data: &'a [u8], time: PacketTime },
    /// A block of another capture format.
    Foreign,
    /// The capture has ended.
    Eof,
    /// The buffer ends inside a block.
    Incomplete,
    /// Any other failure to read or to parse.
    Failed,
}

/// Why a capture cannot be read on.
#[derive(Clone, Copy, Debug, PartialEq, Eq, Structural)]
pub enum SourceError {
    /// The capture could not be read or is not in the expected format.
    Unreadable,
    /// The capture holds a block of another capture format.
    ForeignBlock,
    /// A frame announces a transport header that it does not hold.
    Frame(IdentityError),
}

/// How to go on after a pull.
#[derive(Clone, Copy, Debug, PartialEq, Eq, Structural)]
pub enum Step {
    /// Consume the block and hand this record out.
    Yield(PacketId, PacketTime),
    /// Consume the block and pull again.
    Skip,
    /// Refill the buffer and pull again.
    Refill,
    /// The stream has ended.
    Finish,
    /// Give the run up.
    Abort(SourceError),
}

/// The step that follows a pull, for a source with the given filter.
pub open spec fn step_after(filter: Seq<(usize, u8)>, pull: Pull) -> Step {
    match pull {
        Pull::Header => Step::Skip,
        Pull::Record { data, time } => match frame_record(filter, data@, time) {
            Ok(Some(record)) => Step::Yield(record.0, record.1),
            Ok(None) => Step::Skip,
            Err(e) => Step::Abort(SourceError::Frame(e)),
        },
        Pull::Foreign => Step::Abort(SourceError::ForeignBlock),
        Pull::Eof => Step::Finish,
        Pull::Incomplete => Step::Refill,
        Pull::Failed => Step::Abort(SourceError::Unreadable),
    }
}

/// The part of a capture record source that decides: it holds the byte
/// filter and turns pulls into steps.
pub struct PcapReader {
    pub filter: Vec<(usize, u8)>,
}

impl PcapReader {
    /// A source that passes the frames which meet every constraint of
    /// `filter`, each an offset into the raw frame and the byte expected
    /// there.
    pub fn new(filter: Vec<(usize, u8)>) -> (reader: Self)
        ensures
            reader.filter == filter,
    {
        PcapReader { filter }
    }

    /// Tests a raw frame against a filter. An empty filter accepts every
    /// frame; a constraint beyond the frame's end rejects it.
    pub fn match_filter(bytes: &[u8], filter: &Vec<(usize, u8)>) -> (accepted: bool)
        ensures
            accepted == filter_accepts(bytes@, filter@),
    {
        let mut i: usize = 0;
        while i < filter.len()
            invariant
                i <= filter.len(),
                forall|j: int| 0 <= j < i ==> constraint_holds(bytes@, #[trigger] filter@[j]),
            decreases filter.len() - i,
        {
            let (byte_number, byte_value) = filter[i];
            if bytes.len() <= byte_number {
                return false;
            }
            if bytes[byte_number] != byte_value {
                return false;
            }
            i += 1;
        }
        true
    }

    /// The record that a captured frame gives, if it passes the filter and
    /// has an identity.
    pub fn examine(&self, data: &[u8], time: PacketTime) -> (record: Result<
        Option<(PacketId, PacketTime)>,
        IdentityError,
    >)
        ensures
            record == frame_record(self.filter@, data@, time),
    {
        if !Self::match_filter(data, &self.filter) {
            return Ok(None);
        }
        match PacketId::new_from_bytes(data) {
            Ok(Some(id)) => Ok(Some((id, time))),
            Ok(None) => Ok(None),
            Err(e) => Err(e),
        }
    }

    /// The stream of records that a sequence of captured frames gives. The
    /// first frame that announces a transport header it does not hold ends
    /// it with an error.
    pub fn records(&self, frames: &Vec<(Vec<u8>, PacketTime)>) -> (records: Result<
        Vec<(PacketId, PacketTime)>,
        IdentityError,
    >)
        ensures
            match records {
                Ok(found) => records_of(self.filter@, frames_of(frames@)) == Ok::<
                    Seq<(PacketId, PacketTime)>,
                    IdentityError,
                >(found@),
                Err(e) => records_of(self.filter@, frames_of(frames@)) == Err::<
                    Seq<(PacketId, PacketTime)>,
                    IdentityError,
                >(e),
            },
    {
        let ghost all = frames_of(frames@);
        let mut found: Vec<(PacketId, PacketTime)> = Vec::new();
        let mut i: usize = 0;
        while i < frames.len()
            invariant
                i <= frames.len(),
                all == frames_of(frames@),
                records_of(self.filter@, all.take(i as int)) == Ok::<
                    Seq<(PacketId, PacketTime)>,
                    IdentityError,
                >(found@),
            decreases frames.len() - i,
        {
            let record = self.examine(frames[i].0.as_slice(), frames[i].1);
            proof {
                assert(all.take(i + 1).drop_last() == all.take(i as int));
                assert(all.take(i + 1).last() == (frames@[i as int].0@, frames@[i as int].1));
            }
            match record {
                Ok(Some(record)) => {
                    found.push(record);
                },
                Ok(None) => {},
                Err(e) => {
                    proof {
                        lemma_first_error_stays(self.filter@, all, i + 1);
                    }
                    return Err(e);
                },
            }
            i += 1;
        }
        proof {
            assert(all.take(frames.len() as int) == all);
        }
        Ok(found)
    }

    /// Decides how to go on after a pull on the capture.
    pub fn step(&self, pull: Pull) -> (step: Step)
        ensures
            step == step_after(self.filter@, pull),
    {
        match pull {
            Pull::Header => Step::Skip,
            Pull::Record { data, time } => match self.examine(data, time) {
                Ok(Some(record)) => Step::Yield(record.0, record.1),
                Ok(None) => Step::Skip,
                Err(e) => Step::Abort(SourceError::Frame(e)),
            },
            Pull::Foreign => Step::Abort(SourceError::ForeignBlock),
            Pull::Eof => Step::Finish,
            Pull::Incomplete => Step::Refill,
            Pull::Failed => Step::Abort(SourceError::Unreadable),
        }
    }
}

} // verus!
