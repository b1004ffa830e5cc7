//! Packet classifier: parses a raw tunneled frame into a structured view of
//! an IPv4 packet, rejecting malformed input instead of panicking, and a
//! reference encoder that builds frames the classifier provably recovers.

use vstd::prelude::*;
use crate::checksum::checksum_of;

verus! {

/// Big-endian 16-bit word from two bytes.
pub open spec fn be16(hi: u8, lo: u8) -> u16 {
    (hi * 256 + lo) as u16
}

/// Big-endian 32-bit word from four bytes.
pub open spec fn be32(b0: u8, b1: u8, b2: u8, b3: u8) -> u32 {
    (b0 * 0x1000000 + b1 * 0x10000 + b2 * 0x100 + b3) as u32
}

/// Transport protocol carried by an IPv4 packet, as a closed variant set.
#[derive(Clone, Copy, PartialEq, Eq, Structural, Debug)]
pub enum Protocol {
    Tcp,
    Udp,
    Other(u8),
}

/// Transport-layer view: ports for TCP/UDP, and for TCP the control flags
/// and sequence number.
#[derive(Clone, Copy, PartialEq, Eq, Structural, Debug)]
pub enum Transport {
    Tcp { src_port: u16, dst_port: u16, seq: u32, fin: bool, syn: bool, rst: bool },
    Udp { src_port: u16, dst_port: u16 },
    Opaque,
}

/// Read-only view over a raw frame; only constructed from a frame whose
/// declared lengths are consistent with the buffer.
#[derive(Clone, Copy, PartialEq, Eq, Structural, Debug)]
pub struct ParsedPacket {
    pub src_addr: u32,
    pub dst_addr: u32,
    pub protocol: Protocol,
    pub header_len: usize,
    pub total_len: usize,
    pub transport: Transport,
}

#[derive(Clone, Copy, PartialEq, Eq, Structural, Debug)]
pub enum ClassifyError {
    /// The buffer is not a consistent IPv4 packet; the frame is dropped and
    /// the connection continues.
    Malformed,
    /// A valid-looking IPv6 packet; accepted but not processed further.
    Unsupported,
}

/// The first nibble declares IP version 6.
pub open spec fn is_ipv6(b: Seq<u8>) -> bool {
    b.len() >= 1 && b[0] / 16 == 6
}

/// Header length in bytes declared by the low nibble of the first byte.
pub open spec fn header_len_of(b: Seq<u8>) -> int {
    4 * (b[0] % 16)
}

/// Total packet length declared by bytes 2..4.
pub open spec fn total_len_of(b: Seq<u8>) -> int {
    be16(b[2], b[3]) as int
}

/// The IPv4 header declares lengths consistent with the actual buffer.
pub open spec fn ipv4_valid(b: Seq<u8>) -> bool {
    &&& b.len() >= 1
    &&& b[0] / 16 == 4
    &&& header_len_of(b) >= 20
    &&& header_len_of(b) <= b.len()
    &&& total_len_of(b) >= header_len_of(b)
    &&& total_len_of(b) <= b.len()
}

/// The transport header of a TCP/UDP packet fits inside the declared
/// total length.
pub open spec fn transport_fits(b: Seq<u8>) -> bool {
    &&& b[9] == 6 ==> total_len_of(b) - header_len_of(b) >= 20
    &&& b[9] == 17 ==> total_len_of(b) - header_len_of(b) >= 8
}

/// A frame the classifier accepts: consistent IPv4 with a complete
/// transport header where one is required.
pub open spec fn frame_valid(b: Seq<u8>) -> bool {
    ipv4_valid(b) && transport_fits(b)
}

pub open spec fn protocol_of(b: Seq<u8>) -> Protocol {
    if b[9] == 6 {
        Protocol::Tcp
    } else if b[9] == 17 {
        Protocol::Udp
    } else {
        Protocol::Other(b[9])
    }
}

pub open spec fn src_addr_of(b: Seq<u8>) -> u32 {
    be32(b[12], b[13], b[14], b[15])
}

pub open spec fn dst_addr_of(b: Seq<u8>) -> u32 {
    be32(b[16], b[17], b[18], b[19])
}

/// Source port of a TCP/UDP packet (first two bytes after the IP header).
pub open spec fn src_port_of(b: Seq<u8>) -> u16 {
    be16(b[header_len_of(b)], b[header_len_of(b) + 1])
}

/// Destination port of a TCP/UDP packet.
pub open spec fn dst_port_of(b: Seq<u8>) -> u16 {
    be16(b[header_len_of(b) + 2], b[header_len_of(b) + 3])
}

pub open spec fn transport_of(b: Seq<u8>) -> Transport {
    let hl = header_len_of(b);
    match protocol_of(b) {
        Protocol::Tcp => Transport::Tcp {
            src_port: src_port_of(b),
            dst_port: dst_port_of(b),
            seq: be32(b[hl + 4], b[hl + 5], b[hl + 6], b[hl + 7]),
            fin: b[hl + 13] % 2 == 1,
            syn: (b[hl + 13] / 2) % 2 == 1,
            rst: (b[hl + 13] / 4) % 2 == 1,
        },
        Protocol::Udp => Transport::Udp {
            src_port: src_port_of(b),
            dst_port: dst_port_of(b),
        },
        Protocol::Other(_) => Transport::Opaque,
    }
}

/// The full structured view of a valid frame.
pub open spec fn spec_parse(b: Seq<u8>) -> ParsedPacket {
    ParsedPacket {
        src_addr: src_addr_of(b),
        dst_addr: dst_addr_of(b),
        protocol: protocol_of(b),
        header_len: header_len_of(b) as usize,
        total_len: total_len_of(b) as usize,
        transport: transport_of(b),
    }
}

/// A 16-bit value is recovered from its big-endian byte decomposition.
pub proof fn lemma_be16_bytes(x: u16)
    ensures
        be16((x / 256) as u8, (x % 256) as u8) == x,
{
    assert(x == (x / 256) * 256 + x % 256);
}

/// A 32-bit value is recovered from its big-endian byte decomposition.
pub proof fn lemma_be32_bytes(x: u32)
    ensures
        be32(
            (x / 0x1000000) as u8,
            ((x / 0x10000) % 256) as u8,
            ((x / 256) % 256) as u8,
            (x % 256) as u8,
        ) == x,
{
    assert(x == (x / 0x1000000) * 0x1000000 + ((x / 0x10000) % 256) * 0x10000 + ((x / 256) % 256)
        * 0x100 + x % 256) by (nonlinear_arith);
}

fn read_be16(b: &[u8], i: usize) -> (r: u16)
    requires
        i + 2 <= b@.len(),
    ensures
        r == be16(b@[i as int], b@[i + 1]),
{
    (b[i] as u16) * 256 + (b[i + 1] as u16)
}

fn read_be32(b: &[u8], i: usize) -> (r: u32)
    requires
        i + 4 <= b@.len(),
    ensures
        r == be32(b@[i as int], b@[i + 1], b@[i + 2], b@[i + 3]),
{
    (b[i] as u32) * 0x1000000 + (b[i + 1] as u32) * 0x10000 + (b[i + 2] as u32) * 0x100
        + (b[i + 3] as u32)
}

/// Classifies a raw frame: a consistent IPv4 packet yields its parsed view,
/// IPv6 is reported as `Unsupported` (skipped, not a fault), anything else
/// is `Malformed`. Never reads outside the buffer and never panics; in
/// particular any buffer shorter than its own declared header length is
/// `Malformed`.
pub fn classify(buffer: &[u8]) -> (r: Result<ParsedPacket, ClassifyError>)
    ensures
        r == Err::<ParsedPacket, ClassifyError>(ClassifyError::Unsupported) <==> is_ipv6(
            buffer@,
        ),
        r is Ok <==> frame_valid(buffer@),
        frame_valid(buffer@) ==> r == Ok::<ParsedPacket, ClassifyError>(spec_parse(buffer@)),
        r == Err::<ParsedPacket, ClassifyError>(ClassifyError::Malformed) <==> !is_ipv6(buffer@)
            && !frame_valid(buffer@),
        buffer@.len() >= 1 && buffer@[0] / 16 == 4 && header_len_of(buffer@) > buffer@.len()
            ==> r == Err::<ParsedPacket, ClassifyError>(ClassifyError::Malformed),
{
    if buffer.len() < 1 {
        return Err(ClassifyError::Malformed);
    }
    let version = buffer[0] / 16;
    if version == 6 {
        return Err(ClassifyError::Unsupported);
    }
    if version != 4 {
        return Err(ClassifyError::Malformed);
    }
    let header_len: usize = 4 * ((buffer[0] % 16) as usize);
    if header_len < 20 || header_len > buffer.len() {
        return Err(ClassifyError::Malformed);
    }
    let total_len = read_be16(buffer, 2) as usize;
    if total_len < header_len || total_len > buffer.len() {
        return Err(ClassifyError::Malformed);
    }
    let proto = buffer[9];
    let src_addr = read_be32(buffer, 12);
    let dst_addr = read_be32(buffer, 16);
    let transport: Transport;
    let protocol: Protocol;
    if proto == 6 {
        if total_len - header_len < 20 {
            return Err(ClassifyError::Malformed);
        }
        let flags = buffer[header_len + 13];
        transport = Transport::Tcp {
            src_port: read_be16(buffer, header_len),
            dst_port: read_be16(buffer, header_len + 2),
            seq: read_be32(buffer, header_len + 4),
            fin: flags % 2 == 1,
            syn: (flags / 2) % 2 == 1,
            rst: (flags / 4) % 2 == 1,
        };
        protocol = Protocol::Tcp;
    } else if proto == 17 {
        if total_len - header_len < 8 {
            return Err(ClassifyError::Malformed);
        }
        transport = Transport::Udp {
            src_port: read_be16(buffer, header_len),
            dst_port: read_be16(buffer, header_len + 2),
        };
        protocol = Protocol::Udp;
    } else {
        transport = Transport::Opaque;
        protocol = Protocol::Other(proto);
    }
    Ok(ParsedPacket { src_addr, dst_addr, protocol, header_len, total_len, transport })
}

/// A minimal (20-byte) IPv4 header for the given fields, with the checksum
/// bytes still zero.
pub open spec fn spec_header_zero_ck(src: u32, dst: u32, proto: u8, total: int) -> Seq<u8> {
    seq![
        0x45u8,
        0u8,
        (total / 256) as u8,
        (total % 256) as u8,
        0u8,
        0u8,
        0u8,
        0u8,
        64u8,
        proto,
        0u8,
        0u8,
        (src / 0x1000000) as u8,
        ((src / 0x10000) % 256) as u8,
        ((src / 256) % 256) as u8,
        (src % 256) as u8,
        (dst / 0x1000000) as u8,
        ((dst / 0x10000) % 256) as u8,
        ((dst / 256) % 256) as u8,
        (dst % 256) as u8,
    ]
}

/// The reference encoding: a minimal IPv4 header with a correct header
/// checksum, followed by the transport payload.
pub open spec fn spec_encode_ipv4(src: u32, dst: u32, proto: u8, payload: Seq<u8>) -> Seq<u8> {
    let h0 = spec_header_zero_ck(src, dst, proto, 20 + payload.len() as int);
    let ck = checksum_of(h0);
    h0.update(10, (ck / 256) as u8).update(11, (ck % 256) as u8) + payload
}

/// The classifier recovers exactly the addresses and protocol that the
/// reference encoder was given (round trip over all encodable inputs).
pub proof fn lemma_encode_round_trip(src: u32, dst: u32, proto: u8, payload: Seq<u8>)
    requires
        payload.len() <= 65515,
        proto == 6 ==> payload.len() >= 20,
        proto == 17 ==> payload.len() >= 8,
    ensures
        frame_valid(spec_encode_ipv4(src, dst, proto, payload)),
        spec_parse(spec_encode_ipv4(src, dst, proto, payload)).src_addr == src,
        spec_parse(spec_encode_ipv4(src, dst, proto, payload)).dst_addr == dst,
        spec_parse(spec_encode_ipv4(src, dst, proto, payload)).protocol == (if proto == 6 {
            Protocol::Tcp
        } else if proto == 17 {
            Protocol::Udp
        } else {
            Protocol::Other(proto)
        }),
        spec_parse(spec_encode_ipv4(src, dst, proto, payload)).header_len == 20,
        spec_parse(spec_encode_ipv4(src, dst, proto, payload)).total_len == 20 + payload.len(),
        spec_encode_ipv4(src, dst, proto, payload).skip(20) == payload,
{
    let b = spec_encode_ipv4(src, dst, proto, payload);
    let total = 20 + payload.len();
    assert(b.len() == total);
    assert(b[0] == 0x45);
    assert(b[2] == (total / 256) as u8);
    assert(b[3] == (total % 256) as u8);
    assert(total_len_of(b) == total) by {
        assert(total / 256 <= 255);
        assert(total == (total / 256) * 256 + total % 256);
    }
    assert(header_len_of(b) == 20);
    assert(b[9] == proto);
    assert(b[12] == (src / 0x1000000) as u8);
    assert(src_addr_of(b) == src) by {
        assert(src / 0x1000000 <= 255);
        assert(src == (src / 0x1000000) * 0x1000000 + ((src / 0x10000) % 256) * 0x10000 + ((src
            / 256) % 256) * 0x100 + src % 256) by (nonlinear_arith);
    }
    assert(dst_addr_of(b) == dst) by {
        assert(dst / 0x1000000 <= 255);
        assert(dst == (dst / 0x1000000) * 0x1000000 + ((dst / 0x10000) % 256) * 0x10000 + ((dst
            / 256) % 256) * 0x100 + dst % 256) by (nonlinear_arith);
    }
    assert(b.skip(20) =~= payload);
}

/// Builds the reference frame for the given fields; the result is the byte
/// sequence `spec_encode_ipv4` describes, so `classify` provably recovers
/// the fields from it.
pub fn encode_ipv4(src: u32, dst: u32, proto: u8, payload: &[u8]) -> (r: Vec<u8>)
    requires
        payload@.len() <= 65515,
    ensures
        r@ == spec_encode_ipv4(src, dst, proto, payload@),
        r@.len() == 20 + payload@.len(),
{
    let total: usize = 20 + payload.len();
    let mut v: Vec<u8> = Vec::new();
    v.push(0x45);
    v.push(0);
    v.push((total / 256) as u8);
    v.push((total % 256) as u8);
    v.push(0);
    v.push(0);
    v.push(0);
    v.push(0);
    v.push(64);
    v.push(proto);
    v.push(0);
    v.push(0);
    v.push((src >> 24) as u8);
    v.push((src >> 16) as u8);
    v.push((src >> 8) as u8);
    v.push(src as u8);
    v.push((dst >> 24) as u8);
    v.push((dst >> 16) as u8);
    v.push((dst >> 8) as u8);
    v.push(dst as u8);
    let ghost h0 = spec_header_zero_ck(src, dst, proto, 20 + payload@.len() as int);
    proof {
        assert((src >> 24) as u8 == (src / 0x1000000) as u8) by (bit_vector);
        assert((src >> 16) as u8 == ((src / 0x10000) % 256) as u8) by (bit_vector);
        assert((src >> 8) as u8 == ((src / 256) % 256) as u8) by (bit_vector);
        assert(src as u8 == (src % 256) as u8) by (bit_vector);
        assert((dst >> 24) as u8 == (dst / 0x1000000) as u8) by (bit_vector);
        assert((dst >> 16) as u8 == ((dst / 0x10000) % 256) as u8) by (bit_vector);
        assert((dst >> 8) as u8 == ((dst / 256) % 256) as u8) by (bit_vector);
        assert(dst as u8 == (dst % 256) as u8) by (bit_vector);
        assert(v@ =~= h0);
    }
    let ck = crate::checksum::internet_checksum(v.as_slice(), 0, 20);
    proof {
        assert(v@.subrange(0, 20) =~= h0);
    }
    v[10] = (ck / 256) as u8;
    v[11] = (ck % 256) as u8;
    let mut i: usize = 0;
    while i < payload.len()
        invariant
            i <= payload@.len(),
            v@ == h0.update(10, (checksum_of(h0) / 256) as u8).update(
                11,
                (checksum_of(h0) % 256) as u8,
            ) + payload@.subrange(0, i as int),
        decreases payload@.len() - i,
    {
        v.push(payload[i]);
        proof {
            assert(payload@.subrange(0, i + 1) =~= payload@.subrange(0, i as int).push(
                payload@[i as int],
            ));
            assert(v@ =~= h0.update(10, (checksum_of(h0) / 256) as u8).update(
                11,
                (checksum_of(h0) % 256) as u8,
            ) + payload@.subrange(0, i + 1));
        }
        i = i + 1;
    }
    proof {
        assert(payload@.subrange(0, payload@.len() as int) =~= payload@);
        assert(v@ =~= spec_encode_ipv4(src, dst, proto, payload@));
    }
    v
}

/// Builds a 20-byte TCP header with the given ports, sequence number and
/// control flags; the checksum field is left zero (the forwarding rewrite
/// fills it from the pseudo-header).
pub fn encode_tcp_header(src_port: u16, dst_port: u16, seq: u32, fin: bool, syn: bool, rst: bool, ack: bool) -> (r: Vec<u8>)
    ensures
        r@.len() == 20,
        be16(r@[0], r@[1]) == src_port,
        be16(r@[2], r@[3]) == dst_port,
        be32(r@[4], r@[5], r@[6], r@[7]) == seq,
        r@[13] % 2 == 1 <==> fin,
        (r@[13] / 2) % 2 == 1 <==> syn,
        (r@[13] / 4) % 2 == 1 <==> rst,
{
    let mut v: Vec<u8> = Vec::new();
    v.push((src_port / 256) as u8);
    v.push((src_port % 256) as u8);
    v.push((dst_port / 256) as u8);
    v.push((dst_port % 256) as u8);
    v.push((seq >> 24) as u8);
    v.push((seq >> 16) as u8);
    v.push((seq >> 8) as u8);
    v.push(seq as u8);
    v.push(0);
    v.push(0);
    v.push(0);
    v.push(0);
    v.push(0x50);
    let flags: u8 = (if fin { 1u8 } else { 0u8 }) + (if syn { 2u8 } else { 0u8 }) + (if rst {
        4u8
    } else {
        0u8
    }) + (if ack { 16u8 } else { 0u8 });
    v.push(flags);
    v.push(0xff);
    v.push(0xff);
    v.push(0);
    v.push(0);
    v.push(0);
    v.push(0);
    proof {
        assert((seq >> 24) as u8 == (seq / 0x1000000) as u8) by (bit_vector);
        assert((seq >> 16) as u8 == ((seq / 0x10000) % 256) as u8) by (bit_vector);
        assert((seq >> 8) as u8 == ((seq / 256) % 256) as u8) by (bit_vector);
        assert(seq as u8 == (seq % 256) as u8) by (bit_vector);
        assert(be16(v@[0], v@[1]) == src_port) by {
            assert(src_port == (src_port / 256) * 256 + src_port % 256);
        }
        assert(be16(v@[2], v@[3]) == dst_port) by {
            assert(dst_port == (dst_port / 256) * 256 + dst_port % 256);
        }
        assert(be32(v@[4], v@[5], v@[6], v@[7]) == seq) by {
            assert(seq == (seq / 0x1000000) * 0x1000000 + ((seq / 0x10000) % 256) * 0x10000 + ((seq
                / 256) % 256) * 0x100 + seq % 256) by (nonlinear_arith);
        }
    }
    v
}

/// Builds an 8-byte UDP header with the given ports; length covers the
/// header plus `data_len` bytes of data, the checksum field is left zero.
pub fn encode_udp_header(src_port: u16, dst_port: u16, data_len: u16) -> (r: Vec<u8>)
    requires
        data_len <= 65527,
    ensures
        r@.len() == 8,
        be16(r@[0], r@[1]) == src_port,
        be16(r@[2], r@[3]) == dst_port,
        be16(r@[4], r@[5]) == data_len + 8,
{
    let len: u16 = data_len + 8;
    let mut v: Vec<u8> = Vec::new();
    v.push((src_port / 256) as u8);
    v.push((src_port % 256) as u8);
    v.push((dst_port / 256) as u8);
    v.push((dst_port % 256) as u8);
    v.push((len / 256) as u8);
    v.push((len % 256) as u8);
    v.push(0);
    v.push(0);
    proof {
        assert(src_port == (src_port / 256) * 256 + src_port % 256);
        assert(dst_port == (dst_port / 256) * 256 + dst_port % 256);
        assert(len == (len / 256) * 256 + len % 256);
    }
    v
}

} // verus!

