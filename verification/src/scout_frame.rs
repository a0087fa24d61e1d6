//! Raw frames of the scout: the 66-byte Ethernet/IPv4/TCP SYN probe it
//! sends, and the classification of the frames it receives.

use vstd::prelude::*;
use crate::ip::{ip_from_octets, octets, spec_ip_from_octets, spec_octets};

verus! {

/// The TCP source port every probe is sent from.
pub const PROBE_SRC_PORT: u16 = 6900;

/// Sum of the 16-bit big-endian words of `b`, the trailing odd byte padded
/// with zero; `k` counts the words taken from the front.
pub open spec fn spec_sum_words(b: Seq<u8>, k: nat) -> int
    decreases k,
{
    if k == 0 {
        0
    } else {
        spec_sum_words(b, (k - 1) as nat) + (b[2 * (k - 1)] as int) * 256 + (if 2 * (k - 1) + 1
            < b.len() {
            b[2 * (k - 1) + 1] as int
        } else {
            0
        })
    }
}

/// Folds the carries of a ones'-complement sum until it fits 16 bits.
pub open spec fn spec_fold16(x: int) -> int
    decreases x,
{
    if x < 0 {
        0
    } else if x <= 0xffff {
        x
    } else {
        spec_fold16(x % 0x10000 + x / 0x10000)
    }
}

/// The Internet checksum of `b`: the ones' complement of the folded sum of
/// its 16-bit words.
pub open spec fn spec_checksum(b: Seq<u8>) -> int {
    0xffff - spec_fold16(spec_sum_words(b, ((b.len() + 1) / 2) as nat))
}

/// Word sums stay non-negative and below `k * 2^16`.
proof fn lemma_sum_words_bound(b: Seq<u8>, k: nat)
    ensures
        0 <= spec_sum_words(b, k) <= k * 0x10000,
    decreases k,
{
    if k > 0 {
        lemma_sum_words_bound(b, (k - 1) as nat);
    }
}

/// The folded sum fits 16 bits.
proof fn lemma_fold16_bound(x: int)
    ensures
        0 <= spec_fold16(x) <= 0xffff,
    decreases x,
{
    if x > 0xffff {
        lemma_fold16_bound(x % 0x10000 + x / 0x10000);
    }
}

/// Computes the Internet checksum of `b`.
pub fn checksum(b: &[u8]) -> (r: u16)
    requires
        b@.len() < 10000,
    ensures
        r == spec_checksum(b@),
{
    let n = b.len();
    let nwords = (n + 1) / 2;
    let mut acc: u64 = 0;
    let mut i: usize = 0;
    while i < nwords
        invariant
            n == b@.len(),
            n < 10000,
            nwords == (n + 1) / 2,
            i <= nwords,
            acc == spec_sum_words(b@, i as nat),
            acc <= i * 0x10000,
        decreases nwords - i,
    {
        proof {
            lemma_sum_words_bound(b@, i as nat);
        }
        let hi = b[2 * i] as u64 * 256;
        let lo: u64 = if 2 * i + 1 < n {
            b[2 * i + 1] as u64
        } else {
            0
        };
        acc = acc + hi + lo;
        i = i + 1;
    }
    proof {
        lemma_sum_words_bound(b@, nwords as nat);
    }
    let ghost total = acc;
    while acc > 0xffff
        invariant
            acc <= total,
            spec_fold16(acc as int) == spec_fold16(total as int),
        decreases acc,
    {
        acc = (acc % 0x10000) + (acc / 0x10000);
    }
    proof {
        lemma_fold16_bound(total as int);
    }
    (0xffff - acc as u16) as u16
}

/// The 20-byte IPv4 header of the probe before its checksum is filled in:
/// version 4 and header length 5 in the first octet, total length 52,
/// don't-fragment, TTL 64, TCP.
pub open spec fn spec_ip_header_base(src: u32, dst: u32, ident: u16) -> Seq<u8> {
    let (sa, sb, sc, sd) = spec_octets(src);
    let (da, db, dc, dd) = spec_octets(dst);
    seq![
        0x45u8,
        0u8,
        0u8,
        52u8,
        (ident / 0x100) as u8,
        (ident % 0x100) as u8,
        0x40u8,
        0u8,
        64u8,
        6u8,
        0u8,
        0u8,
        sa,
        sb,
        sc,
        sd,
        da,
        db,
        dc,
        dd,
    ]
}

/// The probe's IPv4 header with its checksum in place.
pub open spec fn spec_ip_header(src: u32, dst: u32, ident: u16) -> Seq<u8> {
    let base = spec_ip_header_base(src, dst, ident);
    let ck = spec_checksum(base);
    base.update(10, (ck / 0x100) as u8).update(11, (ck % 0x100) as u8)
}

/// The probe's 32-byte TCP segment before its checksum is filled in:
/// fixed source port, sequence zero, SYN, window 64240, data offset 8, and
/// the options MSS 1460, SACK-permitted, two NOPs and window scale 7, with
/// one zero byte of padding.
pub open spec fn spec_tcp_base(port: u16) -> Seq<u8> {
    seq![
        (PROBE_SRC_PORT / 0x100) as u8,
        (PROBE_SRC_PORT % 0x100) as u8,
        (port / 0x100) as u8,
        (port % 0x100) as u8,
        0u8,
        0u8,
        0u8,
        0u8,
        0u8,
        0u8,
        0u8,
        0u8,
        0x80u8,
        0x02u8,
        0xfau8,
        0xf0u8,
        0u8,
        0u8,
        0u8,
        0u8,
        0x02u8,
        0x04u8,
        0x05u8,
        0xb4u8,
        0x04u8,
        0x02u8,
        0x01u8,
        0x01u8,
        0x03u8,
        0x03u8,
        0x07u8,
        0u8,
    ]
}

/// The pseudo-header the TCP checksum covers: both addresses, the protocol
/// number and the segment length.
pub open spec fn spec_tcp_pseudo(src: u32, dst: u32) -> Seq<u8> {
    let (sa, sb, sc, sd) = spec_octets(src);
    let (da, db, dc, dd) = spec_octets(dst);
    seq![sa, sb, sc, sd, da, db, dc, dd, 0u8, 6u8, 0u8, 32u8]
}

/// The probe's TCP segment with its checksum in place.
pub open spec fn spec_tcp_segment(src: u32, dst: u32, port: u16) -> Seq<u8> {
    let base = spec_tcp_base(port);
    let ck = spec_checksum(spec_tcp_pseudo(src, dst) + base);
    base.update(16, (ck / 0x100) as u8).update(17, (ck % 0x100) as u8)
}

/// The whole 66-byte probe frame: broadcast Ethernet header carrying the
/// sender's hardware address, then the IPv4 header, then the TCP segment.
pub open spec fn spec_syn_frame(
    mac: Seq<u8>,
    src: u32,
    dst: u32,
    port: u16,
    ident: u16,
) -> Seq<u8> {
    seq![0xffu8, 0xffu8, 0xffu8, 0xffu8, 0xffu8, 0xffu8] + mac + seq![0x08u8, 0x00u8]
        + spec_ip_header(src, dst, ident) + spec_tcp_segment(src, dst, port)
}

/// Builds the probe frame for a given IPv4 identification value.
pub fn generate_syn_packet(mac: &[u8], src_ip: u32, dest_ip: u32, port: u16, ident: u16) -> (r: Vec<
    u8,
>)
    requires
        mac@.len() == 6,
    ensures
        r@ == spec_syn_frame(mac@, src_ip, dest_ip, port, ident),
        r@.len() == 66,
{
    let (sa, sb, sc, sd) = octets(src_ip);
    let (da, db, dc, dd) = octets(dest_ip);
    let mut ip_header: Vec<u8> = Vec::new();
    ip_header.push(0x45);
    ip_header.push(0);
    ip_header.push(0);
    ip_header.push(52);
    ip_header.push((ident / 0x100) as u8);
    ip_header.push((ident % 0x100) as u8);
    ip_header.push(0x40);
    ip_header.push(0);
    ip_header.push(64);
    ip_header.push(6);
    ip_header.push(0);
    ip_header.push(0);
    ip_header.push(sa);
    ip_header.push(sb);
    ip_header.push(sc);
    ip_header.push(sd);
    ip_header.push(da);
    ip_header.push(db);
    ip_header.push(dc);
    ip_header.push(dd);
    assert(ip_header@ =~= spec_ip_header_base(src_ip, dest_ip, ident));
    let ip_ck = checksum(ip_header.as_slice());
    ip_header[10] = (ip_ck / 0x100) as u8;
    ip_header[11] = (ip_ck % 0x100) as u8;
    assert(ip_header@ =~= spec_ip_header(src_ip, dest_ip, ident));
    let mut tcp_input: Vec<u8> = Vec::new();
    tcp_input.push(sa);
    tcp_input.push(sb);
    tcp_input.push(sc);
    tcp_input.push(sd);
    tcp_input.push(da);
    tcp_input.push(db);
    tcp_input.push(dc);
    tcp_input.push(dd);
    tcp_input.push(0);
    tcp_input.push(6);
    tcp_input.push(0);
    tcp_input.push(32);
    let tcp_start = tcp_input.len();
    tcp_input.push((PROBE_SRC_PORT / 0x100) as u8);
    tcp_input.push((PROBE_SRC_PORT % 0x100) as u8);
    tcp_input.push((port / 0x100) as u8);
    tcp_input.push((port % 0x100) as u8);
    let mut z: usize = 0;
    while z < 8
        invariant
            z <= 8,
            tcp_input@.len() == 16 + z,
            tcp_input@ == spec_tcp_pseudo(src_ip, dest_ip) + spec_tcp_base(port).take(4 + z as int),
        decreases 8 - z,
    {
        tcp_input.push(0);
        proof {
            assert(tcp_input@ =~= spec_tcp_pseudo(src_ip, dest_ip) + spec_tcp_base(port).take(
                4 + z as int + 1,
            ));
        }
        z = z + 1;
    }
    tcp_input.push(0x80);
    tcp_input.push(0x02);
    tcp_input.push(0xfa);
    tcp_input.push(0xf0);
    tcp_input.push(0);
    tcp_input.push(0);
    tcp_input.push(0);
    tcp_input.push(0);
    tcp_input.push(0x02);
    tcp_input.push(0x04);
    tcp_input.push(0x05);
    tcp_input.push(0xb4);
    tcp_input.push(0x04);
    tcp_input.push(0x02);
    tcp_input.push(0x01);
    tcp_input.push(0x01);
    tcp_input.push(0x03);
    tcp_input.push(0x03);
    tcp_input.push(0x07);
    tcp_input.push(0);
    assert(tcp_input@.len() == 44);
    assert(tcp_input@.subrange(0, 12) =~= spec_tcp_pseudo(src_ip, dest_ip));
    assert(tcp_input@.subrange(12, 44) =~= spec_tcp_base(port));
    assert(tcp_input@ =~= tcp_input@.subrange(0, 12) + tcp_input@.subrange(12, 44));
    assert(tcp_input@ =~= spec_tcp_pseudo(src_ip, dest_ip) + spec_tcp_base(port));
    let tcp_ck = checksum(tcp_input.as_slice());
    tcp_input[12 + 16] = (tcp_ck / 0x100) as u8;
    tcp_input[12 + 17] = (tcp_ck % 0x100) as u8;
    let mut frame: Vec<u8> = Vec::new();
    let mut f: usize = 0;
    while f < 6
        invariant
            frame@.len() == f,
            f <= 6,
            forall|m: int| 0 <= m < f ==> frame@[m] == 0xffu8,
        decreases 6 - f,
    {
        frame.push(0xff);
        f = f + 1;
    }
    frame.push(mac[0]);
    frame.push(mac[1]);
    frame.push(mac[2]);
    frame.push(mac[3]);
    frame.push(mac[4]);
    frame.push(mac[5]);
    frame.push(0x08);
    frame.push(0x00);
    let mut g: usize = 0;
    let ghost eth = frame@;
    while g < 20
        invariant
            g <= 20,
            ip_header@.len() == 20,
            frame@ == eth + ip_header@.take(g as int),
        decreases 20 - g,
    {
        frame.push(ip_header[g]);
        proof {
            assert(frame@ =~= eth + ip_header@.take(g as int + 1));
        }
        g = g + 1;
    }
    let mut h: usize = 12;
    let ghost eth_ip = frame@;
    while h < 44
        invariant
            12 <= h <= 44,
            tcp_input@.len() == 44,
            frame@ == eth_ip + tcp_input@.subrange(12, h as int),
        decreases 44 - h,
    {
        frame.push(tcp_input[h]);
        proof {
            assert(frame@ =~= eth_ip + tcp_input@.subrange(12, h as int + 1));
        }
        h = h + 1;
    }
    proof {
        assert(ip_header@.take(20) =~= ip_header@);
        assert(tcp_input@.subrange(12, 44) =~= spec_tcp_segment(src_ip, dest_ip, port));
        assert(frame@ =~= spec_syn_frame(mac@, src_ip, dest_ip, port, ident));
    }
    frame
}

/// How a received frame classifies: nothing unless it is an Ethernet frame
/// holding an IPv4 packet whose declared total length covers a TCP segment
/// whose source port matches; otherwise the sender's address and whether
/// both SYN and ACK are set.
pub open spec fn spec_classify(b: Seq<u8>, port: u16) -> Option<(u32, bool)> {
    if b.len() < 34 {
        None
    } else {
        let ihl = (b[14] & 0x0f) as int;
        let off = 14 + 4 * ihl;
        let total_len = (b[16] as int) * 256 + (b[17] as int);
        if ihl < 5 || b.len() < off + 20 || total_len < 4 * ihl + 20 {
            None
        } else {
            let src_port = (b[off] as int) * 256 + (b[off + 1] as int);
            if src_port != port {
                None
            } else {
                let flags = b[off + 13];
                let source = spec_ip_from_octets(b[26], b[27], b[28], b[29]);
                Some((source, flags & 0x02 != 0 && flags & 0x10 != 0))
            }
        }
    }
}

/// Classifies a received frame against the expected TCP source port.
pub fn validate_response(packet: &[u8], port: u16) -> (r: Option<(u32, bool)>)
    ensures
        r == spec_classify(packet@, port),
{
    let n = packet.len();
    if n < 34 {
        return None;
    }
    let b14 = packet[14];
    proof {
        assert((b14 & 0x0f) < 16) by (bit_vector);
    }
    let ihl = (b14 & 0x0f) as usize;
    let off = 14 + 4 * ihl;
    let total_len: u32 = (packet[16] as u32) * 256 + (packet[17] as u32);
    if ihl < 5 || n < off + 20 || total_len < 4 * (ihl as u32) + 20 {
        return None;
    }
    let src_port: u32 = (packet[off] as u32) * 256 + (packet[off + 1] as u32);
    if src_port != port as u32 {
        return None;
    }
    let flags = packet[off + 13];
    let source = ip_from_octets(packet[26], packet[27], packet[28], packet[29]);
    Some((source, flags & 0x02 != 0 && flags & 0x10 != 0))
}

/// Whether a frame is the answer to the sanity probe: a SYN/ACK from the
/// known-responsive address's web port.
pub fn validate_sanity_reply(packet: &[u8]) -> (r: bool)
    ensures
        r == (spec_classify(packet@, 80) == Some((spec_ip_from_octets(1, 1, 1, 1), true))),
{
    match validate_response(packet, 80) {
        Some((source, syn_ack)) => {
            let sanity = ip_from_octets(1, 1, 1, 1);
            syn_ack && source == sanity
        },
        None => false,
    }
}

/// The microseconds to sleep between probe packets at a send rate given in
/// packets per second.
pub fn micros_per_packet(send_rate: u64) -> (r: u64)
    requires
        send_rate >= 1,
    ensures
        r == 1000000u64 / send_rate,
{
    1000000 / send_rate
}

} // verus!
