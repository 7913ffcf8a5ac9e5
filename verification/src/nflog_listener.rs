//! Decoding of the packets that the kernel logs: the IPv4 header and the
//! transport ports, turned into a flow key.

use vstd::prelude::*;
use vstd::slice::slice_subrange;

use crate::sni_parser::{be16, read_be16};
use crate::types::FlowKey;

verus! {

/// The NFLOG group that the packet rule logs to.
pub const DEFAULT_NFLOG_GROUP: u16 = 100;

/// The netlink multicast group bits that subscribe to NFLOG group `group`:
/// bit `group - 1`, for groups 1 to 32; other groups have no bit.
pub fn group_mask(group: u16) -> (r: Option<u32>)
    ensures
        r == if 1 <= group <= 32 {
            Some(1u32 << ((group - 1) as u32))
        } else {
            None
        },
{
    if group >= 1 && group <= 32 {
        let shift: u32 = (group - 1) as u32;
        Some(1u32 << shift)
    } else {
        None
    }
}

/// Big-endian (network order) 32-bit value at `b[i..i + 4]`.
pub open spec fn be32(b: Seq<u8>, i: int) -> int {
    b[i] * 0x1000000 + b[i + 1] * 0x10000 + b[i + 2] * 0x100 + b[i + 3]
}

/// Source address, destination address, protocol, source port and destination
/// port of an IPv4 packet; the addresses are read in network byte order (most significant byte
/// first, as `FlowKey::src_ip_str` prints them), and the ports
/// are 0 when the packet ends before them.
pub open spec fn ip_header_fields(p: Seq<u8>) -> Option<(u32, u32, u8, u16, u16)> {
    if p.len() < 20 || p[0] / 16 != 4 || p[0] % 16 < 5 || p.len() < (p[0] % 16) * 4 {
        None
    } else {
        let header_len = (p[0] % 16) * 4;
        let src = be32(p, 12) as u32;
        let dst = be32(p, 16) as u32;
        if p.len() >= header_len + 4 {
            Some((src, dst, p[9], be16(p, header_len) as u16, be16(p, header_len + 2) as u16))
        } else {
            Some((src, dst, p[9], 0, 0))
        }
    }
}

/// The flow key of an Ethernet frame that carries an IPv4 packet.
pub open spec fn packet_flow(packet: Seq<u8>) -> Option<FlowKey> {
    if packet.len() < 34 {
        None
    } else {
        match ip_header_fields(packet.subrange(14, packet.len() as int)) {
            Some((src, dst, proto, sport, dport)) => Some(
                FlowKey { src_ip: src, dst_ip: dst, dst_port: dport, src_port: sport, proto },
            ),
            None => None,
        }
    }
}

fn read_be32(b: &[u8], i: usize) -> (r: u32)
    requires
        i + 3 < b@.len(),
    ensures
        r == be32(b@, i as int),
{
    (b[i] as u32) * 0x1000000 + (b[i + 1] as u32) * 0x10000 + (b[i + 2] as u32) * 0x100 + (b[i
        + 3] as u32)
}

/// Source and destination address, protocol, source and destination port of an
/// IPv4 header.
pub fn parse_ip_header(packet: &[u8]) -> (r: Option<(u32, u32, u8, u16, u16)>)
    ensures
        r == ip_header_fields(packet@),
{
    let len = packet.len();
    if len < 20 {
        return None;
    }
    let first = packet[0];
    let version = first >> 4;
    let ihl = (first & 0x0F) as usize;
    assert(first >> 4 == first / 16 && first & 0x0F == first % 16) by (bit_vector);
    if version != 4 {
        return None;
    }
    if ihl < 5 {
        return None;
    }
    let header_len = ihl * 4;
    if len < header_len {
        return None;
    }
    let protocol = packet[9];
    let src_ip = read_be32(packet, 12);
    let dst_ip = read_be32(packet, 16);
    if len >= header_len + 4 {
        let src_port = read_be16(packet, header_len);
        let dst_port = read_be16(packet, header_len + 2);
        Some((src_ip, dst_ip, protocol, src_port, dst_port))
    } else {
        Some((src_ip, dst_ip, protocol, 0, 0))
    }
}

/// The flow key of an Ethernet frame; no server name is known at this point.
pub fn parse_packet(packet: &[u8]) -> (r: Option<(FlowKey, Option<String>)>)
    ensures
        match packet_flow(packet@) {
            Some(key) => r matches Some((k, name)) && k == key && name is None,
            None => r is None,
        },
{
    if packet.len() < 34 {
        return None;
    }
    let ip_header = slice_subrange(packet, 14, packet.len());
    match parse_ip_header(ip_header) {
        Some((src_ip, dst_ip, proto, src_port, dst_port)) => {
            let flow_key = FlowKey::new(src_ip, dst_ip, src_port, dst_port, proto);
            Some((flow_key, None))
        },
        None => None,
    }
}

} // verus!
