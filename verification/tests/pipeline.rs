use pcap_latency::correlate::{build_table, correlate};
use pcap_latency::identity::{IdentityError, PacketId};
use pcap_latency::source::PcapReader;
use pcap_latency::stats::{Outcome, StatsError, Summary};
use pcap_latency::time::PacketTime;

fn frame(protocol: u8, src: [u8; 4], dst: [u8; 4], transport: &[u8]) -> Vec<u8> {
    let mut bytes = vec![0xaa; 12];
    bytes.extend_from_slice(&[0x08, 0x00, 0x45, 0x00]);
    bytes.extend_from_slice(&((20 + transport.len()) as u16).to_be_bytes());
    bytes.extend_from_slice(&[0, 1, 0, 0, 64, protocol, 0, 0]);
    bytes.extend_from_slice(&src);
    bytes.extend_from_slice(&dst);
    bytes.extend_from_slice(transport);
    bytes
}

fn tcp_frame(seq: u32) -> Vec<u8> {
    let mut segment = vec![0x1f, 0x90, 0xc0, 0x01];
    segment.extend_from_slice(&seq.to_be_bytes());
    segment.extend_from_slice(&[0, 0, 0, 9, 0x50, 0x18, 1, 0, 0, 0, 0, 0]);
    segment.extend_from_slice(b"payload");
    frame(6, [10, 1, 1, 1], [10, 2, 2, 2], &segment)
}

fn tcp_id(seq: u32) -> PacketId {
    PacketId::Tcp {
        ip_src: 0x0a010101,
        ip_dst: 0x0a020202,
        port_src: 8080,
        port_dst: 49153,
        tcp_seq: seq,
        tcp_ack: 9,
    }
}

fn icmp_frame(checksum: u16) -> Vec<u8> {
    let mut message = vec![0, 0];
    message.extend_from_slice(&checksum.to_be_bytes());
    message.extend_from_slice(&[0, 7, 0, 1]);
    frame(1, [10, 2, 2, 2], [10, 1, 1, 1], &message)
}

fn udp_frame() -> Vec<u8> {
    frame(17, [10, 1, 1, 1], [10, 2, 2, 2], &[0, 53, 0, 53, 0, 8, 0, 0])
}

fn arp_frame() -> Vec<u8> {
    let mut bytes = tcp_frame(1);
    bytes[12] = 0x08;
    bytes[13] = 0x06;
    bytes
}

fn at(sec: u32, usec: u32) -> PacketTime {
    PacketTime { sec, usec }
}

#[test]
fn records_keep_order_and_times() {
    let reader = PcapReader::new(Vec::new());
    let frames = vec![
        (tcp_frame(5), at(1, 1)),
        (udp_frame(), at(1, 2)),
        (icmp_frame(0x0a0b), at(1, 3)),
        (tcp_frame(6), at(1, 4)),
    ];
    assert_eq!(
        reader.records(&frames),
        Ok(vec![
            (tcp_id(5), at(1, 1)),
            (PacketId::Icmp { ip_src: 0x0a020202, ip_dst: 0x0a010101, checksum: 0x0a0b }, at(1, 3)),
            (tcp_id(6), at(1, 4)),
        ])
    );
}

#[test]
fn records_of_nothing_are_none() {
    let reader = PcapReader::new(vec![(0, 0)]);
    assert_eq!(reader.records(&Vec::new()), Ok(Vec::new()));
}

#[test]
fn records_stop_at_the_first_error() {
    let reader = PcapReader::new(Vec::new());
    let mut cut_tcp = tcp_frame(5);
    cut_tcp.truncate(50);
    let mut cut_icmp = icmp_frame(1);
    cut_icmp.truncate(36);
    let frames = vec![
        (tcp_frame(1), at(0, 0)),
        (cut_icmp, at(0, 1)),
        (cut_tcp, at(0, 2)),
        (tcp_frame(2), at(0, 3)),
    ];
    assert_eq!(reader.records(&frames), Err(IdentityError::TruncatedIcmp));
}

#[test]
fn filter_keeps_frames_from_the_parser() {
    let mut cut_tcp = tcp_frame(5);
    cut_tcp.truncate(50);
    let frames = vec![(cut_tcp, at(0, 2)), (icmp_frame(3), at(0, 3))];
    let only_icmp = PcapReader::new(vec![(23, 1)]);
    assert_eq!(
        only_icmp.records(&frames),
        Ok(vec![(PacketId::Icmp { ip_src: 0x0a020202, ip_dst: 0x0a010101, checksum: 3 }, at(0, 3))])
    );
    let everything = PcapReader::new(Vec::new());
    assert_eq!(everything.records(&frames), Err(IdentityError::TruncatedTcp));
}

#[test]
fn skipped_frames_leave_no_trace() {
    let reader = PcapReader::new(Vec::new());
    let plain = vec![(tcp_frame(1), at(0, 10)), (tcp_frame(2), at(0, 20))];
    let mixed = vec![
        (arp_frame(), at(0, 1)),
        (tcp_frame(1), at(0, 10)),
        (udp_frame(), at(0, 11)),
        (tcp_frame(1)[..33].to_vec(), at(0, 12)),
        (tcp_frame(2), at(0, 20)),
        (Vec::new(), at(0, 21)),
    ];
    assert_eq!(reader.records(&mixed), reader.records(&plain));
    let outbound = reader.records(&mixed).unwrap();
    let mut table = build_table(&outbound);
    let (outcomes, stats) = correlate(&mut table, &reader.records(&mixed).unwrap());
    assert_eq!(outcomes, vec![Outcome::Hit(0), Outcome::Hit(0)]);
    assert_eq!(stats.packet_count(), 2);
    assert_eq!(stats.hit_count(), 2);
    assert_eq!(stats.miss_count(), 0);
}

#[test]
fn identical_captures_from_frames() {
    let reader = PcapReader::new(vec![(12, 0x08), (13, 0x00)]);
    let capture = vec![
        (tcp_frame(100), at(3, 999_999)),
        (icmp_frame(0x1111), at(4, 0)),
        (udp_frame(), at(4, 1)),
        (tcp_frame(101), at(4, 2)),
    ];
    let mut table = build_table(&reader.records(&capture).unwrap());
    let (outcomes, stats) = correlate(&mut table, &reader.records(&capture).unwrap());
    assert_eq!(outcomes, vec![Outcome::Hit(0), Outcome::Hit(0), Outcome::Hit(0)]);
    assert_eq!(stats.miss_count(), 0);
    assert_eq!(
        stats.summary(),
        Ok(Summary {
            average_latency: 0,
            jitter: 0,
            packet_count: 3,
            miss_count: 0,
            miss_basis_points: 0,
        })
    );
}

#[test]
fn two_captures_from_frames() {
    let reader = PcapReader::new(Vec::new());
    let outbound = vec![(tcp_frame(7), at(0, 100))];
    let inbound = vec![(tcp_frame(7), at(0, 150)), (icmp_frame(0x2222), at(0, 151))];
    let mut table = build_table(&reader.records(&outbound).unwrap());
    let (outcomes, stats) = correlate(&mut table, &reader.records(&inbound).unwrap());
    assert_eq!(outcomes, vec![Outcome::Hit(-50), Outcome::Miss]);
    assert_eq!(
        stats.summary(),
        Ok(Summary {
            average_latency: 50,
            jitter: 0,
            packet_count: 2,
            miss_count: 1,
            miss_basis_points: 5000,
        })
    );
}

#[test]
fn captures_without_a_common_packet_have_no_summary() {
    let reader = PcapReader::new(Vec::new());
    let outbound = vec![(tcp_frame(7), at(0, 100))];
    let inbound = vec![(tcp_frame(8), at(0, 150)), (udp_frame(), at(0, 151))];
    let mut table = build_table(&reader.records(&outbound).unwrap());
    let (outcomes, stats) = correlate(&mut table, &reader.records(&inbound).unwrap());
    assert_eq!(outcomes, vec![Outcome::Miss]);
    assert_eq!(stats.summary(), Err(StatsError::NoHits));
    assert_eq!(stats.packet_count(), 1);
}
