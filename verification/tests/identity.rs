use pcap_latency::identity::{IdentityError, PacketId};

fn ethernet(ethertype: u16, payload: &[u8]) -> Vec<u8> {
    let mut frame = vec![0x02, 0, 0, 0, 0, 0x01, 0x02, 0, 0, 0, 0, 0x02];
    frame.extend_from_slice(&ethertype.to_be_bytes());
    frame.extend_from_slice(payload);
    frame
}

fn ipv4(protocol: u8, src: [u8; 4], dst: [u8; 4], payload: &[u8]) -> Vec<u8> {
    let total = (20 + payload.len()) as u16;
    let mut packet = vec![0x45, 0];
    packet.extend_from_slice(&total.to_be_bytes());
    packet.extend_from_slice(&[0x12, 0x34, 0x40, 0x00, 64, protocol, 0, 0]);
    packet.extend_from_slice(&src);
    packet.extend_from_slice(&dst);
    packet.extend_from_slice(payload);
    packet
}

fn tcp(src: u16, dst: u16, seq: u32, ack: u32) -> Vec<u8> {
    let mut segment = Vec::new();
    segment.extend_from_slice(&src.to_be_bytes());
    segment.extend_from_slice(&dst.to_be_bytes());
    segment.extend_from_slice(&seq.to_be_bytes());
    segment.extend_from_slice(&ack.to_be_bytes());
    segment.extend_from_slice(&[0x50, 0x10, 0xff, 0xff, 0xab, 0xcd, 0, 0]);
    segment
}

fn icmp(checksum: u16) -> Vec<u8> {
    let mut message = vec![8, 0];
    message.extend_from_slice(&checksum.to_be_bytes());
    message.extend_from_slice(&[0, 1, 0, 2]);
    message
}

const SRC: [u8; 4] = [192, 168, 1, 10];
const DST: [u8; 4] = [10, 0, 0, 7];

#[test]
fn tcp_frame_gives_tcp_identity() {
    let frame = ethernet(0x0800, &ipv4(6, SRC, DST, &tcp(443, 51000, 0x01020304, 0xa0b0c0d0)));
    assert_eq!(
        PacketId::new_from_bytes(&frame),
        Ok(Some(PacketId::Tcp {
            ip_src: 0xc0a8010a,
            ip_dst: 0x0a000007,
            port_src: 443,
            port_dst: 51000,
            tcp_seq: 0x01020304,
            tcp_ack: 0xa0b0c0d0,
        }))
    );
}

#[test]
fn icmp_frame_gives_icmp_identity() {
    let frame = ethernet(0x0800, &ipv4(1, SRC, DST, &icmp(0xbeef)));
    assert_eq!(
        PacketId::new_from_bytes(&frame),
        Ok(Some(PacketId::Icmp { ip_src: 0xc0a8010a, ip_dst: 0x0a000007, checksum: 0xbeef }))
    );
}

#[test]
fn tcp_and_icmp_identities_differ() {
    let a = PacketId::Tcp { ip_src: 1, ip_dst: 2, port_src: 0, port_dst: 0, tcp_seq: 0, tcp_ack: 0 };
    let b = PacketId::Icmp { ip_src: 1, ip_dst: 2, checksum: 0 };
    assert_ne!(a, b);
}

#[test]
fn udp_frame_is_passed_over() {
    let frame = ethernet(0x0800, &ipv4(17, SRC, DST, &[0u8; 28]));
    assert_eq!(PacketId::new_from_bytes(&frame), Ok(None));
}

#[test]
fn empty_and_short_frames_are_passed_over() {
    assert_eq!(PacketId::new_from_bytes(&[]), Ok(None));
    assert_eq!(PacketId::new_from_bytes(&[0u8; 13]), Ok(None));
    let whole = ethernet(0x0800, &ipv4(6, SRC, DST, &tcp(1, 2, 3, 4)));
    assert_eq!(PacketId::new_from_bytes(&whole[..14]), Ok(None));
    assert_eq!(PacketId::new_from_bytes(&whole[..33]), Ok(None));
}

#[test]
fn other_network_protocols_are_passed_over() {
    let inner = ipv4(6, SRC, DST, &tcp(1, 2, 3, 4));
    assert_eq!(PacketId::new_from_bytes(&ethernet(0x0806, &inner)), Ok(None));
    assert_eq!(PacketId::new_from_bytes(&ethernet(0x86dd, &inner)), Ok(None));
    assert_eq!(PacketId::new_from_bytes(&ethernet(0x8100, &inner)), Ok(None));
}

#[test]
fn wrong_ip_version_is_passed_over() {
    let mut inner = ipv4(6, SRC, DST, &tcp(1, 2, 3, 4));
    inner[0] = 0x65;
    assert_eq!(PacketId::new_from_bytes(&ethernet(0x0800, &inner)), Ok(None));
}

#[test]
fn fragments_are_passed_over() {
    let mut more = ipv4(6, SRC, DST, &tcp(1, 2, 3, 4));
    more[6] = 0x20;
    assert_eq!(PacketId::new_from_bytes(&ethernet(0x0800, &more)), Ok(None));
    let mut later = ipv4(6, SRC, DST, &tcp(1, 2, 3, 4));
    later[6] = 0x00;
    later[7] = 0x05;
    assert_eq!(PacketId::new_from_bytes(&ethernet(0x0800, &later)), Ok(None));
    let mut far = ipv4(6, SRC, DST, &tcp(1, 2, 3, 4));
    far[6] = 0x01;
    far[7] = 0x00;
    assert_eq!(PacketId::new_from_bytes(&ethernet(0x0800, &far)), Ok(None));
}

#[test]
fn truncated_tcp_header_is_an_error() {
    let segment = tcp(1, 2, 3, 4);
    let frame = ethernet(0x0800, &ipv4(6, SRC, DST, &segment[..19]));
    assert_eq!(PacketId::new_from_bytes(&frame), Err(IdentityError::TruncatedTcp));
    let bare = ethernet(0x0800, &ipv4(6, SRC, DST, &[]));
    assert_eq!(PacketId::new_from_bytes(&bare), Err(IdentityError::TruncatedTcp));
}

#[test]
fn truncated_icmp_header_is_an_error() {
    let frame = ethernet(0x0800, &ipv4(1, SRC, DST, &[8, 0, 1]));
    assert_eq!(PacketId::new_from_bytes(&frame), Err(IdentityError::TruncatedIcmp));
}

#[test]
fn shortest_icmp_message_has_an_identity() {
    let frame = ethernet(0x0800, &ipv4(1, SRC, DST, &[8, 0, 0x12, 0x34]));
    assert_eq!(
        PacketId::new_from_bytes(&frame),
        Ok(Some(PacketId::Icmp { ip_src: 0xc0a8010a, ip_dst: 0x0a000007, checksum: 0x1234 }))
    );
}

#[test]
fn ip_options_shift_the_transport_header() {
    let mut packet = vec![0x46, 0];
    packet.extend_from_slice(&(24u16 + 20).to_be_bytes());
    packet.extend_from_slice(&[0, 0, 0, 0, 64, 6, 0, 0]);
    packet.extend_from_slice(&SRC);
    packet.extend_from_slice(&DST);
    packet.extend_from_slice(&[1, 1, 1, 0]);
    packet.extend_from_slice(&tcp(80, 8080, 7, 9));
    assert_eq!(
        PacketId::new_from_bytes(&ethernet(0x0800, &packet)),
        Ok(Some(PacketId::Tcp {
            ip_src: 0xc0a8010a,
            ip_dst: 0x0a000007,
            port_src: 80,
            port_dst: 8080,
            tcp_seq: 7,
            tcp_ack: 9,
        }))
    );
}

#[test]
fn declared_total_length_cuts_the_payload() {
    let mut packet = ipv4(6, SRC, DST, &tcp(80, 8080, 7, 9));
    packet[2] = 0;
    packet[3] = 30;
    assert_eq!(
        PacketId::new_from_bytes(&ethernet(0x0800, &packet)),
        Err(IdentityError::TruncatedTcp)
    );
}

#[test]
fn trailing_padding_is_ignored() {
    let mut frame = ethernet(0x0800, &ipv4(1, SRC, DST, &icmp(0x0102)));
    frame.extend_from_slice(&[0xff; 6]);
    assert_eq!(
        PacketId::new_from_bytes(&frame),
        Ok(Some(PacketId::Icmp { ip_src: 0xc0a8010a, ip_dst: 0x0a000007, checksum: 0x0102 }))
    );
}
