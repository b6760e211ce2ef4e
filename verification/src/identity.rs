//! The identity by which one packet is recognised in two captures.

use crate::headers::{
    be16, be32, ethernet_ethertype, ethernet_new, ethernet_payload, ethernet_payload_of,
    icmp_checksum, icmp_new, ipv4_destination, ipv4_flags, ipv4_fragment_offset, ipv4_new,
    ipv4_payload, ipv4_payload_of, ipv4_protocol, ipv4_source, ipv4_version, tcp_acknowledgement,
    tcp_destination, tcp_new, tcp_sequence, tcp_source,
};
use vstd::prelude::*;

verus! {

/// The EtherType of IPv4.
pub const ETHERTYPE_IPV4: u16 = 0x0800;

/// The IPv4 protocol number of ICMP.
pub const PROTOCOL_ICMP: u8 = 1;

/// The IPv4 protocol number of TCP.
pub const PROTOCOL_TCP: u8 = 6;

/// What makes two captured frames the same packet. Addresses are the four
/// octets read as one big-endian number.
#[derive(Clone, Copy, Debug, PartialEq, Eq, Structural, Hash)]
pub enum PacketId {
    Tcp { ip_src: u32, ip_dst: u32, port_src: u16, port_dst: u16, tcp_seq: u32, tcp_ack: u32 },
    Icmp { ip_src: u32, ip_dst: u32, checksum: u16 },
}

/// A frame whose IPv4 header announces a transport header that is not there.
#[derive(Clone, Copy, Debug, PartialEq, Eq, Structural)]
pub enum IdentityError {
    /// The protocol is TCP and the payload is shorter than a TCP header.
    TruncatedTcp,
    /// The protocol is ICMP and the payload is shorter than an ICMP header.
    TruncatedIcmp,
}

/// Whether `ip` starts with the header of an unfragmented IPv4 packet.
pub open spec fn is_whole_ipv4(ip: Seq<u8>) -> bool {
    &&& ip.len() >= 20
    &&& ip[0] as int / 16 == 4
    &&& (ip[6] as int / 32) % 2 == 0
    &&& (ip[6] as int % 32) * 0x100 + ip[7] as int == 0
}

/// Whether `frame` is an Ethernet frame that carries an unfragmented IPv4
/// packet.
pub open spec fn carries_ipv4(frame: Seq<u8>) -> bool {
    &&& frame.len() >= 14
    &&& be16(frame, 12) == 0x0800
    &&& is_whole_ipv4(ethernet_payload_of(frame))
}

/// The identity of a TCP segment inside the IPv4 packet `ip`.
pub open spec fn tcp_identity(ip: Seq<u8>) -> PacketId {
    let tcp = ipv4_payload_of(ip);
    PacketId::Tcp {
        ip_src: be32(ip, 12),
        ip_dst: be32(ip, 16),
        port_src: be16(tcp, 0),
        port_dst: be16(tcp, 2),
        tcp_seq: be32(tcp, 4),
        tcp_ack: be32(tcp, 8),
    }
}

/// The identity of an ICMP message inside the IPv4 packet `ip`.
pub open spec fn icmp_identity(ip: Seq<u8>) -> PacketId {
    PacketId::Icmp {
        ip_src: be32(ip, 12),
        ip_dst: be32(ip, 16),
        checksum: be16(ipv4_payload_of(ip), 2),
    }
}

/// What a frame yields: an identity, nothing (the frame is passed over), or
/// an error (the capture contradicts itself).
pub open spec fn frame_identity(frame: Seq<u8>) -> Result<Option<PacketId>, IdentityError> {
    let ip = ethernet_payload_of(frame);
    if !carries_ipv4(frame) {
        Ok(None)
    } else if ip[9] == 6 {
        if ipv4_payload_of(ip).len() >= 20 {
            Ok(Some(tcp_identity(ip)))
        } else {
            Err(IdentityError::TruncatedTcp)
        }
    } else if ip[9] == 1 {
        if ipv4_payload_of(ip).len() >= 4 {
            Ok(Some(icmp_identity(ip)))
        } else {
            Err(IdentityError::TruncatedIcmp)
        }
    } else {
        Ok(None)
    }
}

impl PacketId {
    /// Reads the identity of a raw link-layer frame: Ethernet, then IPv4,
    /// then TCP or ICMP.
    pub fn new_from_bytes(bytes: &[u8]) -> (identity: Result<Option<PacketId>, IdentityError>)
        ensures
            identity == frame_identity(bytes@),
    {
        let l2 = match ethernet_new(bytes) {
            Some(view) => view,
            None => return Ok(None),
        };
        if ethernet_ethertype(&l2) != ETHERTYPE_IPV4 {
            return Ok(None);
        }
        let l3 = match ipv4_new(ethernet_payload(&l2)) {
            Some(view) => view,
            None => return Ok(None),
        };
        if ipv4_version(&l3) != 4 || ipv4_flags(&l3) % 2 != 0 || ipv4_fragment_offset(&l3) != 0 {
            return Ok(None);
        }
        let ip_src = ipv4_source(&l3);
        let ip_dst = ipv4_destination(&l3);
        let protocol = ipv4_protocol(&l3);
        if protocol == PROTOCOL_TCP {
            match tcp_new(ipv4_payload(&l3)) {
                Some(l4) => Ok(
                    Some(
                        PacketId::Tcp {
                            ip_src,
                            ip_dst,
                            port_src: tcp_source(&l4),
                            port_dst: tcp_destination(&l4),
                            tcp_seq: tcp_sequence(&l4),
                            tcp_ack: tcp_acknowledgement(&l4),
                        },
                    ),
                ),
                None => Err(IdentityError::TruncatedTcp),
            }
        } else if protocol == PROTOCOL_ICMP {
            match icmp_new(ipv4_payload(&l3)) {
                Some(l4) => Ok(Some(PacketId::Icmp { ip_src, ip_dst, checksum: icmp_checksum(&l4) })),
                None => Err(IdentityError::TruncatedIcmp),
            }
        } else {
            Ok(None)
        }
    }
}

} // verus!
