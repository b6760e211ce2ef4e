//! The header fields that packet identities are made of, read through
//! `pnet`'s packet views.
//!
//! Each view type is opaque here; what is known of a view is the byte
//! sequence it was made over, and each accessor is described by the bytes of
//! that sequence it decodes. None of these descriptions is proved: they
//! restate the layout that `pnet` declares for each header.

use pnet::packet::ethernet::EthernetPacket;
use pnet::packet::icmp::IcmpPacket;
use pnet::packet::ipv4::Ipv4Packet;
use pnet::packet::tcp::TcpPacket;
use pnet::packet::Packet;
use vstd::prelude::*;

verus! {

/// Length of an Ethernet header.
pub const ETHERNET_HEADER_LEN: usize = 14;

/// Length of an IPv4 header without options.
pub const IPV4_HEADER_LEN: usize = 20;

/// Length of a TCP header without options.
pub const TCP_HEADER_LEN: usize = 20;

/// Length of the fixed part of an ICMP header: type, code and checksum.
pub const ICMP_HEADER_LEN: usize = 4;

/// The big-endian 16-bit number at `at`.
pub open spec fn be16(s: Seq<u8>, at: int) -> u16 {
    (s[at] as int * 0x100 + s[at + 1] as int) as u16
}

/// The big-endian 32-bit number at `at`.
pub open spec fn be32(s: Seq<u8>, at: int) -> u32 {
    (s[at] as int * 0x100_0000 + s[at + 1] as int * 0x1_0000 + s[at + 2] as int * 0x100 + s[at
        + 3] as int) as u32
}

/// What follows the Ethernet header in a frame.
pub open spec fn ethernet_payload_of(frame: Seq<u8>) -> Seq<u8> {
    if frame.len() <= 14 {
        Seq::empty()
    } else {
        frame.subrange(14, frame.len() as int)
    }
}

/// Header length in bytes as the IPv4 header itself declares it.
pub open spec fn ipv4_declared_header_len(ip: Seq<u8>) -> int {
    (ip[0] as int % 16) * 4
}

/// Where the payload of an IPv4 packet starts: after the fixed header and
/// the options that the header length declares.
pub open spec fn ipv4_payload_start(ip: Seq<u8>) -> int {
    if ipv4_declared_header_len(ip) <= 20 {
        20
    } else {
        ipv4_declared_header_len(ip)
    }
}

/// Where the payload of an IPv4 packet ends: as far as the declared total
/// length reaches beyond the declared header, and no further than the bytes
/// at hand.
pub open spec fn ipv4_payload_end(ip: Seq<u8>) -> int {
    let declared = if be16(ip, 2) as int <= ipv4_declared_header_len(ip) {
        0
    } else {
        be16(ip, 2) as int - ipv4_declared_header_len(ip)
    };
    if ipv4_payload_start(ip) + declared <= ip.len() {
        ipv4_payload_start(ip) + declared
    } else {
        ip.len() as int
    }
}

/// The payload of an IPv4 packet.
pub open spec fn ipv4_payload_of(ip: Seq<u8>) -> Seq<u8> {
    if ip.len() <= ipv4_payload_start(ip) {
        Seq::empty()
    } else {
        ip.subrange(ipv4_payload_start(ip), ipv4_payload_end(ip))
    }
}

#[verifier::external_type_specification]
#[verifier::external_body]
pub struct ExEthernetPacket<'p>(EthernetPacket<'p>);

#[verifier::external_type_specification]
#[verifier::external_body]
pub struct ExIpv4Packet<'p>(Ipv4Packet<'p>);

#[verifier::external_type_specification]
#[verifier::external_body]
pub struct ExTcpPacket<'p>(TcpPacket<'p>);

#[verifier::external_type_specification]
#[verifier::external_body]
pub struct ExIcmpPacket<'p>(IcmpPacket<'p>);

/// The bytes that an Ethernet view was made over.
pub uninterp spec fn ethernet_bytes(packet: EthernetPacket) -> Seq<u8>;

/// The bytes that an IPv4 view was made over.
pub uninterp spec fn ipv4_bytes(packet: Ipv4Packet) -> Seq<u8>;

/// The bytes that a TCP view was made over.
pub uninterp spec fn tcp_bytes(packet: TcpPacket) -> Seq<u8>;

/// The bytes that an ICMP view was made over.
pub uninterp spec fn icmp_bytes(packet: IcmpPacket) -> Seq<u8>;

/// `EthernetPacket::new`: a view over `bytes`, made exactly when they hold a
/// whole Ethernet header.
#[verifier::external_body]
pub(crate) fn ethernet_new<'p>(bytes: &'p [u8]) -> (view: Option<EthernetPacket<'p>>)
    ensures
        view.is_some() == (bytes@.len() >= 14),
        view matches Some(p) ==> ethernet_bytes(p) == bytes@,
{
    EthernetPacket::new(bytes)
}

/// `EthernetPacket::get_ethertype`: bytes 12 and 13, big-endian.
#[verifier::external_body]
pub(crate) fn ethernet_ethertype(packet: &EthernetPacket) -> (ethertype: u16)
    ensures
        ethertype == be16(ethernet_bytes(*packet), 12),
{
    packet.get_ethertype().0
}

/// `EthernetPacket::payload`: everything after the fourteen header bytes.
#[verifier::external_body]
pub(crate) fn ethernet_payload<'a>(packet: &'a EthernetPacket) -> (payload: &'a [u8])
    ensures
        payload@ == ethernet_payload_of(ethernet_bytes(*packet)),
{
    packet.payload()
}

/// `Ipv4Packet::new`: a view over `bytes`, made exactly when they hold a
/// whole IPv4 header without options. Nothing else is checked of them.
#[verifier::external_body]
pub(crate) fn ipv4_new<'p>(bytes: &'p [u8]) -> (view: Option<Ipv4Packet<'p>>)
    ensures
        view.is_some() == (bytes@.len() >= 20),
        view matches Some(p) ==> ipv4_bytes(p) == bytes@,
{
    Ipv4Packet::new(bytes)
}

/// `Ipv4Packet::get_version`: the upper four bits of byte 0.
#[verifier::external_body]
pub(crate) fn ipv4_version(packet: &Ipv4Packet) -> (version: u8)
    ensures
        version as int == ipv4_bytes(*packet)[0] as int / 16,
{
    packet.get_version()
}

/// `Ipv4Packet::get_flags`: the upper three bits of byte 6.
#[verifier::external_body]
pub(crate) fn ipv4_flags(packet: &Ipv4Packet) -> (flags: u8)
    ensures
        flags as int == ipv4_bytes(*packet)[6] as int / 32,
{
    packet.get_flags()
}

/// `Ipv4Packet::get_fragment_offset`: the lower five bits of byte 6 followed
/// by byte 7.
#[verifier::external_body]
pub(crate) fn ipv4_fragment_offset(packet: &Ipv4Packet) -> (offset: u16)
    ensures
        offset as int == (ipv4_bytes(*packet)[6] as int % 32) * 0x100 + ipv4_bytes(*packet)[7] as int,
{
    packet.get_fragment_offset()
}

/// `Ipv4Packet::get_next_level_protocol`: byte 9.
#[verifier::external_body]
pub(crate) fn ipv4_protocol(packet: &Ipv4Packet) -> (protocol: u8)
    ensures
        protocol == ipv4_bytes(*packet)[9],
{
    packet.get_next_level_protocol().0
}

/// `Ipv4Packet::get_source`: bytes 12 to 15, here as one big-endian number.
#[verifier::external_body]
pub(crate) fn ipv4_source(packet: &Ipv4Packet) -> (address: u32)
    ensures
        address == be32(ipv4_bytes(*packet), 12),
{
    u32::from(packet.get_source())
}

/// `Ipv4Packet::get_destination`: bytes 16 to 19, here as one big-endian
/// number.
#[verifier::external_body]
pub(crate) fn ipv4_destination(packet: &Ipv4Packet) -> (address: u32)
    ensures
        address == be32(ipv4_bytes(*packet), 16),
{
    u32::from(packet.get_destination())
}

/// `Ipv4Packet::payload`: the bytes between the end of the declared header
/// and the end of the declared total length, cut to the bytes at hand.
#[verifier::external_body]
pub(crate) fn ipv4_payload<'a>(packet: &'a Ipv4Packet) -> (payload: &'a [u8])
    ensures
        payload@ == ipv4_payload_of(ipv4_bytes(*packet)),
{
    packet.payload()
}

/// `TcpPacket::new`: a view over `bytes`, made exactly when they hold a whole
/// TCP header without options.
#[verifier::external_body]
pub(crate) fn tcp_new<'p>(bytes: &'p [u8]) -> (view: Option<TcpPacket<'p>>)
    ensures
        view.is_some() == (bytes@.len() >= 20),
        view matches Some(p) ==> tcp_bytes(p) == bytes@,
{
    TcpPacket::new(bytes)
}

/// `TcpPacket::get_source`: bytes 0 and 1, big-endian.
#[verifier::external_body]
pub(crate) fn tcp_source(packet: &TcpPacket) -> (port: u16)
    ensures
        port == be16(tcp_bytes(*packet), 0),
{
    packet.get_source()
}

/// `TcpPacket::get_destination`: bytes 2 and 3, big-endian.
#[verifier::external_body]
pub(crate) fn tcp_destination(packet: &TcpPacket) -> (port: u16)
    ensures
        port == be16(tcp_bytes(*packet), 2),
{
    packet.get_destination()
}

/// `TcpPacket::get_sequence`: bytes 4 to 7, big-endian.
#[verifier::external_body]
pub(crate) fn tcp_sequence(packet: &TcpPacket) -> (sequence: u32)
    ensures
        sequence == be32(tcp_bytes(*packet), 4),
{
    packet.get_sequence()
}

/// `TcpPacket::get_acknowledgement`: bytes 8 to 11, big-endian.
#[verifier::external_body]
pub(crate) fn tcp_acknowledgement(packet: &TcpPacket) -> (acknowledgement: u32)
    ensures
        acknowledgement == be32(tcp_bytes(*packet), 8),
{
    packet.get_acknowledgement()
}

/// `IcmpPacket::new`: a view over `bytes`, made exactly when they hold type,
/// code and checksum.
#[verifier::external_body]
pub(crate) fn icmp_new<'p>(bytes: &'p [u8]) -> (view: Option<IcmpPacket<'p>>)
    ensures
        view.is_some() == (bytes@.len() >= 4),
        view matches Some(p) ==> icmp_bytes(p) == bytes@,
{
    IcmpPacket::new(bytes)
}

/// `IcmpPacket::get_checksum`: bytes 2 and 3, big-endian.
#[verifier::external_body]
pub(crate) fn icmp_checksum(packet: &IcmpPacket) -> (checksum: u16)
    ensures
        checksum == be16(icmp_bytes(*packet), 2),
{
    packet.get_checksum()
}

} // verus!
