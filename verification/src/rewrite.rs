//! Forwarding rewrites: network-address translation over raw IPv4 frames.
//! Outbound frames get their source rewritten to the flow's translated
//! identity, inbound replies get their destination rewritten back to the
//! client's original source; both recompute the affected checksums.

use vstd::prelude::*;
use crate::checksum::{checksum_of, internet_checksum};
use crate::packet::{
    be16, dst_addr_of, dst_port_of, frame_valid, header_len_of, lemma_be16_bytes, transport_of,
    lemma_be32_bytes, protocol_of, spec_parse, src_addr_of, src_port_of, total_len_of, Protocol,
    Transport,
};

verus! {

/// The IPv4 header checksum input: the header with its checksum bytes zero.
pub open spec fn header_ck_input(b: Seq<u8>) -> Seq<u8> {
    b.subrange(0, header_len_of(b)).update(10, 0u8).update(11, 0u8)
}

/// The stored IPv4 header checksum matches the header contents.
pub open spec fn header_ck_ok(b: Seq<u8>) -> bool {
    be16(b[10], b[11]) == checksum_of(header_ck_input(b))
}

/// The TCP/UDP pseudo-header: source and destination address, a zero byte,
/// the protocol, and the transport segment length.
pub open spec fn pseudo_header(b: Seq<u8>) -> Seq<u8> {
    let seg_len = total_len_of(b) - header_len_of(b);
    seq![
        b[12],
        b[13],
        b[14],
        b[15],
        b[16],
        b[17],
        b[18],
        b[19],
        0u8,
        b[9],
        (seg_len / 256) as u8,
        (seg_len % 256) as u8,
    ]
}

/// The transport segment of a frame (from the end of the IP header to the
/// declared total length).
pub open spec fn segment_of(b: Seq<u8>) -> Seq<u8> {
    b.subrange(header_len_of(b), total_len_of(b))
}

/// The transport checksum input: pseudo-header plus the segment with the
/// checksum bytes zero (offset 16 in TCP, 6 in UDP).
pub open spec fn transport_ck_input(b: Seq<u8>, ck_off: int) -> Seq<u8> {
    pseudo_header(b) + segment_of(b).update(ck_off, 0u8).update(ck_off + 1, 0u8)
}

/// The stored transport checksum matches the segment and pseudo-header; a
/// UDP checksum that would compute to zero is stored as 0xffff.
pub open spec fn transport_ck_ok(b: Seq<u8>) -> bool {
    let hl = header_len_of(b);
    match protocol_of(b) {
        Protocol::Tcp => be16(b[hl + 16], b[hl + 17]) == checksum_of(transport_ck_input(b, 16)),
        Protocol::Udp => {
            let c = checksum_of(transport_ck_input(b, 6));
            be16(b[hl + 6], b[hl + 7]) == if c == 0 { 0xffffu16 } else { c }
        },
        Protocol::Other(_) => true,
    }
}

/// Positions of the transport checksum bytes (TCP offset 16, UDP offset 6).
pub open spec fn transport_ck_byte(b: Seq<u8>, i: int) -> bool {
    let hl = header_len_of(b);
    ||| (b[9] == 6 && (i == hl + 16 || i == hl + 17))
    ||| (b[9] == 17 && (i == hl + 6 || i == hl + 7))
}

/// Positions that recomputing the checksums may change: the IPv4 checksum
/// bytes and, for TCP/UDP, the transport checksum bytes.
pub open spec fn ck_byte(b: Seq<u8>, i: int) -> bool {
    i == 10 || i == 11 || transport_ck_byte(b, i)
}

/// Recomputes the IPv4 header checksum in place.
fn fix_header_checksum(frame: &mut Vec<u8>)
    requires
        frame_valid(old(frame)@),
    ensures
        final(frame)@.len() == old(frame)@.len(),
        forall|i: int|
            0 <= i < old(frame)@.len() && i != 10 && i != 11
                ==> final(frame)@[i] == old(frame)@[i],
        frame_valid(final(frame)@),
        spec_parse(final(frame)@) == spec_parse(old(frame)@),
        header_ck_ok(final(frame)@),
{
    let hl: usize = 4 * ((frame[0] % 16) as usize);
    frame[10] = 0;
    frame[11] = 0;
    let ghost zeroed = old(frame)@.update(10, 0u8).update(11, 0u8);
    assert(frame@ == zeroed);
    let ck = internet_checksum(frame.as_slice(), 0, hl);
    proof {
        assert(frame@.subrange(0, hl as int) =~= header_ck_input(old(frame)@));
    }
    frame[10] = (ck / 256) as u8;
    frame[11] = (ck % 256) as u8;
    proof {
        let f = frame@;
        let o = old(frame)@;
        lemma_be16_bytes(ck);
        assert(header_len_of(f) == header_len_of(o));
        assert(total_len_of(f) == total_len_of(o));
        assert(header_ck_input(f) =~= header_ck_input(o));
        assert(frame_valid(f));
        assert(spec_parse(f) == spec_parse(o));
    }
}

/// Recomputes the TCP/UDP checksum in place from the pseudo-header and the
/// transport segment; a frame of another protocol is left untouched.
#[verifier::rlimit(100)]
fn fix_transport_checksum(frame: &mut Vec<u8>)
    requires
        frame_valid(old(frame)@),
    ensures
        final(frame)@.len() == old(frame)@.len(),
        forall|i: int|
            0 <= i < old(frame)@.len() && !transport_ck_byte(old(frame)@, i)
                ==> final(frame)@[i] == old(frame)@[i],
        frame_valid(final(frame)@),
        spec_parse(final(frame)@) == spec_parse(old(frame)@),
        transport_ck_ok(final(frame)@),
        header_ck_ok(old(frame)@) ==> header_ck_ok(final(frame)@),
{
    let hl: usize = 4 * ((frame[0] % 16) as usize);
    let tl: usize = (frame[2] as usize) * 256 + (frame[3] as usize);
    let proto = frame[9];
    if proto == 6 || proto == 17 {
        let off: usize = if proto == 6 {
            16
        } else {
            6
        };
        frame[hl + off] = 0;
        frame[hl + off + 1] = 0;
        let ghost mid = frame@;
        proof {
            assert(header_len_of(mid) == hl);
            assert(total_len_of(mid) == tl);
            assert(frame_valid(mid));
        }
        let seg_len: usize = tl - hl;
        let mut pv: Vec<u8> = Vec::new();
        pv.push(frame[12]);
        pv.push(frame[13]);
        pv.push(frame[14]);
        pv.push(frame[15]);
        pv.push(frame[16]);
        pv.push(frame[17]);
        pv.push(frame[18]);
        pv.push(frame[19]);
        pv.push(0);
        pv.push(proto);
        pv.push((seg_len / 256) as u8);
        pv.push((seg_len % 256) as u8);
        proof {
            assert(pv@ =~= pseudo_header(mid));
        }
        let mut i: usize = hl;
        while i < tl
            invariant
                hl <= i <= tl,
                tl <= frame@.len(),
                frame@ == mid,
                header_len_of(mid) == hl,
                total_len_of(mid) == tl,
                pv@ == pseudo_header(mid) + mid.subrange(hl as int, i as int),
            decreases tl - i,
        {
            pv.push(frame[i]);
            proof {
                assert(pv@ =~= pseudo_header(mid) + mid.subrange(hl as int, i + 1));
            }
            i = i + 1;
        }
        proof {
            assert(pv@ == pseudo_header(mid) + segment_of(mid));
            assert(pv@.len() == 12 + (tl - hl));
        }
        let ck = internet_checksum(pv.as_slice(), 0, pv.len());
        proof {
            assert(pv@.subrange(0, pv@.len() as int) =~= pv@);
            let offi = off as int;
            assert(segment_of(mid)[offi] == 0 && segment_of(mid)[offi + 1] == 0);
            assert(transport_ck_input(mid, offi) =~= pv@);
        }
        let store: u16 = if proto == 17 && ck == 0 {
            0xffff
        } else {
            ck
        };
        frame[hl + off] = (store / 256) as u8;
        frame[hl + off + 1] = (store % 256) as u8;
        proof {
            lemma_be16_bytes(store);
            let f = frame@;
            let o = old(frame)@;
            assert(header_len_of(f) == hl && total_len_of(f) == tl);
            assert(frame_valid(f));
            assert(spec_parse(f) == spec_parse(o));
            assert(be16(f[hl + off], f[hl + off + 1]) == store);
            assert(pseudo_header(f) =~= pseudo_header(mid));
            assert(segment_of(f).update(off as int, 0u8).update(off as int + 1, 0u8)
                =~= segment_of(mid));
            assert(transport_ck_input(f, off as int) == transport_ck_input(mid, off as int));
            assert(transport_ck_ok(f));
            assert(header_ck_input(f) =~= header_ck_input(o));
        }
    } else {
        proof {
            assert(final(frame)@ == old(frame)@);
        }
    }
}

/// Spec-level source-port substitution in a transport view.
pub open spec fn with_src_port(t: Transport, p: u16) -> Transport {
    match t {
        Transport::Tcp { src_port, dst_port, seq, fin, syn, rst } => Transport::Tcp {
            src_port: p,
            dst_port,
            seq,
            fin,
            syn,
            rst,
        },
        Transport::Udp { src_port, dst_port } => Transport::Udp { src_port: p, dst_port },
        Transport::Opaque => Transport::Opaque,
    }
}

/// Spec-level destination-port substitution in a transport view.
pub open spec fn with_dst_port(t: Transport, p: u16) -> Transport {
    match t {
        Transport::Tcp { src_port, dst_port, seq, fin, syn, rst } => Transport::Tcp {
            src_port,
            dst_port: p,
            seq,
            fin,
            syn,
            rst,
        },
        Transport::Udp { src_port, dst_port } => Transport::Udp { src_port, dst_port: p },
        Transport::Opaque => Transport::Opaque,
    }
}

/// Outbound NAT: rewrites the source address and port of a valid TCP/UDP
/// frame to the flow's translated identity and recomputes both checksums.
/// Everything else — destination, protocol, flags, sequence number,
/// payload — is byte-for-byte unchanged.
pub fn translate_source(frame: &[u8], new_addr: u32, new_port: u16) -> (r: Vec<u8>)
    requires
        frame_valid(frame@),
        protocol_of(frame@) is Tcp || protocol_of(frame@) is Udp,
    ensures
        r@.len() == frame@.len(),
        frame_valid(r@),
        header_len_of(r@) == header_len_of(frame@),
        total_len_of(r@) == total_len_of(frame@),
        protocol_of(r@) == protocol_of(frame@),
        src_addr_of(r@) == new_addr,
        src_port_of(r@) == new_port,
        dst_addr_of(r@) == dst_addr_of(frame@),
        dst_port_of(r@) == dst_port_of(frame@),
        transport_of(r@) == with_src_port(transport_of(frame@), new_port),
        forall|i: int|
            0 <= i < frame@.len() && !(12 <= i < 16) && i != header_len_of(frame@) && i
                != header_len_of(frame@) + 1 && !ck_byte(frame@, i) ==> r@[i] == frame@[i],
        header_ck_ok(r@),
        transport_ck_ok(r@),
{
    let mut out = copy_frame(frame);
    out[12] = (new_addr / 0x1000000) as u8;
    out[13] = ((new_addr / 0x10000) % 256) as u8;
    out[14] = ((new_addr / 256) % 256) as u8;
    out[15] = (new_addr % 256) as u8;
    let hl: usize = 4 * ((frame[0] % 16) as usize);
    out[hl] = (new_port / 256) as u8;
    out[hl + 1] = (new_port % 256) as u8;
    let ghost mid = out@;
    proof {
        lemma_be32_bytes(new_addr);
        lemma_be16_bytes(new_port);
        assert(header_len_of(mid) == hl && total_len_of(mid) == total_len_of(frame@));
        assert(frame_valid(mid));
        assert(src_addr_of(mid) == new_addr);
        assert(src_port_of(mid) == new_port);
        assert(dst_addr_of(mid) == dst_addr_of(frame@));
        assert(transport_of(mid) == with_src_port(transport_of(frame@), new_port));
    }
    fix_header_checksum(&mut out);
    fix_transport_checksum(&mut out);
    proof {
        assert(spec_parse(out@) == spec_parse(mid));
        assert(forall|i: int|
            0 <= i < mid.len() && i != 10 && i != 11 && !transport_ck_byte(mid, i) ==> out@[i]
                == mid[i]);
    }
    out
}

/// Inbound NAT: rewrites the destination address and port of a valid
/// TCP/UDP frame back to the client's original source identity and
/// recomputes both checksums. Everything else is byte-for-byte unchanged.
pub fn translate_dest(frame: &[u8], new_addr: u32, new_port: u16) -> (r: Vec<u8>)
    requires
        frame_valid(frame@),
        protocol_of(frame@) is Tcp || protocol_of(frame@) is Udp,
    ensures
        r@.len() == frame@.len(),
        frame_valid(r@),
        header_len_of(r@) == header_len_of(frame@),
        total_len_of(r@) == total_len_of(frame@),
        protocol_of(r@) == protocol_of(frame@),
        dst_addr_of(r@) == new_addr,
        dst_port_of(r@) == new_port,
        src_addr_of(r@) == src_addr_of(frame@),
        src_port_of(r@) == src_port_of(frame@),
        transport_of(r@) == with_dst_port(transport_of(frame@), new_port),
        forall|i: int|
            0 <= i < frame@.len() && !(16 <= i < 20) && i != header_len_of(frame@) + 2 && i
                != header_len_of(frame@) + 3 && !ck_byte(frame@, i) ==> r@[i] == frame@[i],
        header_ck_ok(r@),
        transport_ck_ok(r@),
{
    let mut out = copy_frame(frame);
    out[16] = (new_addr / 0x1000000) as u8;
    out[17] = ((new_addr / 0x10000) % 256) as u8;
    out[18] = ((new_addr / 256) % 256) as u8;
    out[19] = (new_addr % 256) as u8;
    let hl: usize = 4 * ((frame[0] % 16) as usize);
    out[hl + 2] = (new_port / 256) as u8;
    out[hl + 3] = (new_port % 256) as u8;
    let ghost mid = out@;
    proof {
        lemma_be32_bytes(new_addr);
        lemma_be16_bytes(new_port);
        assert(header_len_of(mid) == hl && total_len_of(mid) == total_len_of(frame@));
        assert(frame_valid(mid));
        assert(dst_addr_of(mid) == new_addr);
        assert(dst_port_of(mid) == new_port);
        assert(src_addr_of(mid) == src_addr_of(frame@));
        assert(transport_of(mid) == with_dst_port(transport_of(frame@), new_port));
    }
    fix_header_checksum(&mut out);
    fix_transport_checksum(&mut out);
    proof {
        assert(spec_parse(out@) == spec_parse(mid));
        assert(forall|i: int|
            0 <= i < mid.len() && i != 10 && i != 11 && !transport_ck_byte(mid, i) ==> out@[i]
                == mid[i]);
    }
    out
}

/// Copies a raw frame into an owned buffer.
fn copy_frame(frame: &[u8]) -> (r: Vec<u8>)
    ensures
        r@ == frame@,
{
    let mut out: Vec<u8> = Vec::new();
    let mut i: usize = 0;
    while i < frame.len()
        invariant
            i <= frame@.len(),
            out@ == frame@.subrange(0, i as int),
        decreases frame@.len() - i,
    {
        out.push(frame[i]);
        proof {
            assert(out@ =~= frame@.subrange(0, i + 1));
        }
        i = i + 1;
    }
    proof {
        assert(out@ =~= frame@);
    }
    out
}

} // verus!
