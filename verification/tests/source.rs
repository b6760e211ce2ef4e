use pcap_latency::identity::{IdentityError, PacketId};
use pcap_latency::source::{PcapReader, Pull, SourceError, Step};
use pcap_latency::time::PacketTime;

fn icmp_frame(checksum: u16, payload_len: usize) -> Vec<u8> {
    let mut frame = vec![0u8; 12];
    frame.extend_from_slice(&[0x08, 0x00]);
    frame.extend_from_slice(&[0x45, 0]);
    frame.extend_from_slice(&((20 + 4 + payload_len) as u16).to_be_bytes());
    frame.extend_from_slice(&[0, 0, 0, 0, 64, 1, 0, 0, 10, 0, 0, 1, 10, 0, 0, 2]);
    frame.extend_from_slice(&[0, 0]);
    frame.extend_from_slice(&checksum.to_be_bytes());
    frame.extend_from_slice(&vec![0u8; payload_len]);
    frame
}

const EXPECTED: PacketId = PacketId::Icmp { ip_src: 0x0a000001, ip_dst: 0x0a000002, checksum: 0x5555 };

#[test]
fn empty_filter_accepts_every_frame() {
    let filter: Vec<(usize, u8)> = Vec::new();
    assert!(PcapReader::match_filter(&[], &filter));
    assert!(PcapReader::match_filter(&[1, 2, 3], &filter));
}

#[test]
fn filter_needs_every_constraint() {
    let bytes = [10u8, 20, 30, 40];
    assert!(PcapReader::match_filter(&bytes, &vec![(0, 10)]));
    assert!(PcapReader::match_filter(&bytes, &vec![(0, 10), (3, 40)]));
    assert!(!PcapReader::match_filter(&bytes, &vec![(0, 10), (3, 41)]));
    assert!(!PcapReader::match_filter(&bytes, &vec![(1, 21), (3, 40)]));
}

#[test]
fn filter_rejects_offsets_beyond_the_frame() {
    let bytes = [10u8, 20, 30, 40];
    assert!(!PcapReader::match_filter(&bytes, &vec![(4, 0)]));
    assert!(!PcapReader::match_filter(&bytes, &vec![(0, 10), (100, 0)]));
    assert!(!PcapReader::match_filter(&[], &vec![(0, 0)]));
    assert!(!PcapReader::match_filter(&bytes, &vec![(usize::MAX, 40)]));
}

#[test]
fn filter_gives_the_same_answer_twice() {
    let bytes = [10u8, 20, 30, 40];
    let filter = vec![(2, 30), (1, 20)];
    let first = PcapReader::match_filter(&bytes, &filter);
    let second = PcapReader::match_filter(&bytes, &filter);
    assert_eq!(first, second);
    assert!(first);
    assert_eq!(bytes, [10u8, 20, 30, 40]);
    assert_eq!(filter, vec![(2, 30), (1, 20)]);
}

#[test]
fn examine_gives_identity_and_time() {
    let reader = PcapReader::new(Vec::new());
    let time = PacketTime { sec: 7, usec: 9 };
    assert_eq!(reader.examine(&icmp_frame(0x5555, 4), time), Ok(Some((EXPECTED, time))));
}

#[test]
fn examine_filters_before_parsing() {
    let reader = PcapReader::new(vec![(23, 6)]);
    let time = PacketTime { sec: 7, usec: 9 };
    let mut broken = icmp_frame(0x5555, 0);
    broken.truncate(36);
    assert_eq!(reader.examine(&broken, time), Ok(None));
    let open = PcapReader::new(Vec::new());
    assert_eq!(open.examine(&broken, time), Err(IdentityError::TruncatedIcmp));
}

#[test]
fn step_follows_the_pull() {
    let reader = PcapReader::new(vec![(23, 1)]);
    let time = PacketTime { sec: 1, usec: 2 };
    assert_eq!(reader.step(Pull::Header), Step::Skip);
    assert_eq!(reader.step(Pull::Eof), Step::Finish);
    assert_eq!(reader.step(Pull::Incomplete), Step::Refill);
    assert_eq!(reader.step(Pull::Failed), Step::Abort(SourceError::Unreadable));
    assert_eq!(reader.step(Pull::Foreign), Step::Abort(SourceError::ForeignBlock));
    let frame = icmp_frame(0x5555, 8);
    assert_eq!(reader.step(Pull::Record { data: &frame, time }), Step::Yield(EXPECTED, time));
    let mut other = frame.clone();
    other[23] = 17;
    assert_eq!(reader.step(Pull::Record { data: &other, time }), Step::Skip);
    let mut cut = frame.clone();
    cut.truncate(35);
    assert_eq!(
        reader.step(Pull::Record { data: &cut, time }),
        Step::Abort(SourceError::Frame(IdentityError::TruncatedIcmp))
    );
    assert_eq!(reader.step(Pull::Record { data: &frame[..20], time }), Step::Skip);
}

#[test]
fn unrecognised_frames_never_reach_the_table() {
    let reader = PcapReader::new(Vec::new());
    let time = PacketTime { sec: 1, usec: 2 };
    let mut arp = icmp_frame(0x5555, 8);
    arp[12] = 0x08;
    arp[13] = 0x06;
    let mut udp = icmp_frame(0x5555, 8);
    udp[23] = 17;
    let whole = icmp_frame(0x5555, 8);
    let frames: Vec<&[u8]> = vec![&arp, &udp, &whole[..30], &whole[..10]];
    for frame in frames {
        assert_eq!(reader.step(Pull::Record { data: frame, time }), Step::Skip);
    }
}
