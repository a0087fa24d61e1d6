//! IPv4 addresses as 32-bit integers, and the reserved ranges that the
//! scanner must never probe.

use vstd::prelude::*;
use vstd::string::StringSliceAdditionalSpecFns;
use vstd::utf8::{decode_utf8, decode_utf8_encode_utf8, encode_utf8, is_leading_byte_width_1,
    partial_valid_utf8, partial_valid_utf8_extend_ascii_block, valid_utf8};
use crate::protocol_string::string_from_utf8;

verus! {

/// The numeric value of the dotted quad `a.b.c.d` (big-endian byte order).
pub open spec fn spec_ip_from_octets(a: u8, b: u8, c: u8, d: u8) -> u32 {
    ((a as u32) * 0x1000000 + (b as u32) * 0x10000 + (c as u32) * 0x100 + (d as u32)) as u32
}

/// Builds the numeric form of the dotted quad `a.b.c.d`.
pub fn ip_from_octets(a: u8, b: u8, c: u8, d: u8) -> (r: u32)
    ensures
        r == spec_ip_from_octets(a, b, c, d),
{
    (a as u32) * 0x1000000 + (b as u32) * 0x10000 + (c as u32) * 0x100 + (d as u32)
}

/// The four octets of an address, most significant first.
pub open spec fn spec_octets(ip: u32) -> (u8, u8, u8, u8) {
    (
        (ip / 0x1000000) as u8,
        ((ip / 0x10000) % 0x100) as u8,
        ((ip / 0x100) % 0x100) as u8,
        (ip % 0x100) as u8,
    )
}

/// Splits an address into its four octets, most significant first.
pub fn octets(ip: u32) -> (r: (u8, u8, u8, u8))
    ensures
        r == spec_octets(ip),
        spec_ip_from_octets(r.0, r.1, r.2, r.3) == ip,
{
    let r = ((ip / 0x1000000) as u8, ((ip / 0x10000) % 0x100) as u8, ((ip / 0x100) % 0x100) as u8,
        (ip % 0x100) as u8);
    proof {
        assert(spec_ip_from_octets(
            (ip / 0x1000000) as u8,
            ((ip / 0x10000) % 0x100) as u8,
            ((ip / 0x100) % 0x100) as u8,
            (ip % 0x100) as u8,
        ) == ip) by (bit_vector);
    }
    r
}

/// An address the scanner must not emit: loopback, private, link-local,
/// multicast, broadcast or documentation space.
pub open spec fn spec_is_reserved(ip: u32) -> bool {
    ||| ip & 0xff000000 == 0x7f000000  // 127.0.0.0/8 loopback
    ||| ip & 0xff000000 == 0x0a000000  // 10.0.0.0/8 private
    ||| ip & 0xfff00000 == 0xac100000  // 172.16.0.0/12 private
    ||| ip & 0xffff0000 == 0xc0a80000  // 192.168.0.0/16 private
    ||| ip & 0xffff0000 == 0xa9fe0000  // 169.254.0.0/16 link-local
    ||| ip & 0xf0000000 == 0xe0000000  // 224.0.0.0/4 multicast
    ||| ip == 0xffffffff  // 255.255.255.255 broadcast
    ||| ip & 0xffffff00 == 0xc0000200  // 192.0.2.0/24 documentation
    ||| ip & 0xffffff00 == 0xc6336400  // 198.51.100.0/24 documentation
    ||| ip & 0xffffff00 == 0xcb007100  // 203.0.113.0/24 documentation
}

/// Decides whether an address lies in one of the reserved ranges.
pub fn is_reserved(ip: u32) -> (r: bool)
    ensures
        r == spec_is_reserved(ip),
{
    (ip & 0xff000000 == 0x7f000000) || (ip & 0xff000000 == 0x0a000000) || (ip & 0xfff00000
        == 0xac100000) || (ip & 0xffff0000 == 0xc0a80000) || (ip & 0xffff0000 == 0xa9fe0000) || (ip
        & 0xf0000000 == 0xe0000000) || (ip == 0xffffffff) || (ip & 0xffffff00 == 0xc0000200) || (ip
        & 0xffffff00 == 0xc6336400) || (ip & 0xffffff00 == 0xcb007100)
}

/// An ASCII decimal digit byte.
pub open spec fn spec_is_digit(b: u8) -> bool {
    48 <= b <= 57
}

/// The canonical decimal bytes of an octet value: one to three digits, no
/// leading zero.
#[verifier::opaque]
pub open spec fn spec_format_octet(v: u32) -> Seq<u8>
    recommends
        v <= 255,
{
    if v < 10 {
        seq![(48 + v) as u8]
    } else if v < 100 {
        seq![(48 + v / 10) as u8, (48 + v % 10) as u8]
    } else {
        seq![(48 + v / 100) as u8, (48 + (v / 10) % 10) as u8, (48 + v % 10) as u8]
    }
}

/// The canonical dotted-quad bytes of an address.
pub open spec fn spec_format_ip(ip: u32) -> Seq<u8> {
    let (a, b, c, d) = spec_octets(ip);
    spec_format_octet(a as u32) + seq![46u8] + spec_format_octet(b as u32) + seq![46u8]
        + spec_format_octet(c as u32) + seq![46u8] + spec_format_octet(d as u32)
}

/// Parses one canonical octet from the front of `b`: its value and the
/// digits consumed. Rejects leading zeroes, values above 255, and a fourth
/// adjacent digit.
#[verifier::opaque]
pub open spec fn spec_parse_octet(b: Seq<u8>) -> Option<(u32, int)> {
    if b.len() >= 1 && spec_is_digit(b[0]) {
        if b[0] == 48 {
            Some((0, 1))
        } else if b.len() >= 2 && spec_is_digit(b[1]) {
            if b.len() >= 3 && spec_is_digit(b[2]) {
                let v = (b[0] - 48) * 100 + (b[1] - 48) * 10 + (b[2] - 48);
                if v <= 255 && !(b.len() >= 4 && spec_is_digit(b[3])) {
                    Some((v as u32, 3))
                } else {
                    None
                }
            } else {
                Some((((b[0] - 48) * 10 + (b[1] - 48)) as u32, 2))
            }
        } else {
            Some(((b[0] - 48) as u32, 1))
        }
    } else {
        None
    }
}

/// Parses a whole byte sequence as a canonical dotted quad.
#[verifier::opaque]
pub open spec fn spec_parse_ip(b: Seq<u8>) -> Option<u32> {
    match spec_parse_octet(b) {
        None => None,
        Some((a, i)) => {
            if i < b.len() && b[i] == 46 {
                let b2 = b.skip(i + 1);
                match spec_parse_octet(b2) {
                    None => None,
                    Some((o2, j)) => {
                        if j < b2.len() && b2[j] == 46 {
                            let b3 = b2.skip(j + 1);
                            match spec_parse_octet(b3) {
                                None => None,
                                Some((o3, k)) => {
                                    if k < b3.len() && b3[k] == 46 {
                                        let b4 = b3.skip(k + 1);
                                        match spec_parse_octet(b4) {
                                            None => None,
                                            Some((o4, l)) => {
                                                if l == b4.len() {
                                                    Some(
                                                        spec_ip_from_octets(
                                                            a as u8,
                                                            o2 as u8,
                                                            o3 as u8,
                                                            o4 as u8,
                                                        ),
                                                    )
                                                } else {
                                                    None
                                                }
                                            },
                                        }
                                    } else {
                                        None
                                    }
                                },
                            }
                        } else {
                            None
                        }
                    },
                }
            } else {
                None
            }
        },
    }
}

/// Splitting an address into octets inverts building it from them.
pub proof fn lemma_octets_of_from(a: u8, b: u8, c: u8, d: u8)
    ensures
        spec_octets(spec_ip_from_octets(a, b, c, d)) == (a, b, c, d),
{
    let ip = spec_ip_from_octets(a, b, c, d);
    assert(ip / 0x1000000 == a && (ip / 0x10000) % 0x100 == b && (ip / 0x100) % 0x100 == c && ip
        % 0x100 == d) by (bit_vector)
        requires
            ip == ((a as u32) * 0x1000000 + (b as u32) * 0x10000 + (c as u32) * 0x100 + (
            d as u32)) as u32,
    ;
}

/// An octet's canonical form parses back to its value and nothing more, as
/// long as no digit immediately follows it.
proof fn lemma_parse_format_octet(v: u32, tail: Seq<u8>)
    requires
        v <= 255,
        tail.len() == 0 || !spec_is_digit(tail[0]),
    ensures
        spec_parse_octet(spec_format_octet(v) + tail) == Some(
            (v, spec_format_octet(v).len() as int),
        ),
{
    reveal(spec_parse_octet);
    reveal(spec_format_octet);
    let f = spec_format_octet(v);
    let b = f + tail;
    if v < 10 {
        assert(b[0] == 48 + v);
    } else if v < 100 {
        assert(b[0] == 48 + v / 10 && b[1] == 48 + v % 10);
        assert(v / 10 >= 1);
        assert((b[0] - 48) * 10 + (b[1] - 48) == v);
    } else {
        assert(b[0] == 48 + v / 100 && b[1] == 48 + (v / 10) % 10 && b[2] == 48 + v % 10);
        assert(v / 100 >= 1);
        assert((b[0] - 48) * 100 + (b[1] - 48) * 10 + (b[2] - 48) == v);
    }
}

/// A successful octet parse consumed exactly the canonical form of its
/// value, and stopped at a non-digit.
#[verifier::rlimit(50)]
proof fn lemma_parse_octet_canonical(b: Seq<u8>)
    ensures
        spec_parse_octet(b) matches Some((v, i)) ==> {
            &&& v <= 255
            &&& 1 <= i <= 3
            &&& i <= b.len()
            &&& b.subrange(0, i) =~= spec_format_octet(v)
        },
{
    reveal(spec_parse_octet);
    reveal(spec_format_octet);
    match spec_parse_octet(b) {
        None => {},
        Some((v, i)) => {
            if b[0] == 48 {
                assert(b.subrange(0, 1) =~= spec_format_octet(0));
            } else if !(b.len() >= 2 && spec_is_digit(b[1])) {
                assert(v == b[0] - 48 && i == 1);
                assert(b.subrange(0, 1) =~= spec_format_octet(v));
            } else if b.len() >= 2 && spec_is_digit(b[1]) {
                if b.len() >= 3 && spec_is_digit(b[2]) {
                    let val = (b[0] - 48) * 100 + (b[1] - 48) * 10 + (b[2] - 48);
                    assert(val / 100 == b[0] - 48 && (val / 10) % 10 == b[1] - 48 && val % 10 == b[2]
                        - 48) by (nonlinear_arith)
                        requires
                            val == (b[0] - 48) * 100 + (b[1] - 48) * 10 + (b[2] - 48),
                            1 <= b[0] - 48 <= 9,
                            0 <= b[1] - 48 <= 9,
                            0 <= b[2] - 48 <= 9,
                    ;
                    assert(b.subrange(0, 3) =~= spec_format_octet(v));
                } else {
                    let val = (b[0] - 48) * 10 + (b[1] - 48);
                    assert(val / 10 == b[0] - 48 && val % 10 == b[1] - 48) by (nonlinear_arith)
                        requires
                            val == (b[0] - 48) * 10 + (b[1] - 48),
                            1 <= b[0] - 48 <= 9,
                            0 <= b[1] - 48 <= 9,
                    ;
                    assert(b.subrange(0, 2) =~= spec_format_octet(v));
                }
            }
        },
    }
}

/// Round trip: the canonical dotted quad of an address parses back to it.
#[verifier::rlimit(100)]
pub proof fn lemma_parse_format_ip(ip: u32)
    ensures
        spec_parse_ip(spec_format_ip(ip)) == Some(ip),
{
    reveal(spec_parse_ip);
    let (a, b, c, d) = spec_octets(ip);
    let fa = spec_format_octet(a as u32);
    let fb = spec_format_octet(b as u32);
    let fc = spec_format_octet(c as u32);
    let fd = spec_format_octet(d as u32);
    let whole = spec_format_ip(ip);
    let t1 = seq![46u8] + fb + seq![46u8] + fc + seq![46u8] + fd;
    assert(whole =~= fa + t1);
    lemma_parse_format_octet(a as u32, t1);
    assert(whole[fa.len() as int] == 46);
    let r2 = whole.skip(fa.len() as int + 1);
    let t2 = seq![46u8] + fc + seq![46u8] + fd;
    assert(r2 =~= fb + t2);
    lemma_parse_format_octet(b as u32, t2);
    assert(r2[fb.len() as int] == 46);
    let r3 = r2.skip(fb.len() as int + 1);
    let t3 = seq![46u8] + fd;
    assert(r3 =~= fc + t3);
    lemma_parse_format_octet(c as u32, t3);
    assert(r3[fc.len() as int] == 46);
    let r4 = r3.skip(fc.len() as int + 1);
    assert(r4 =~= fd + Seq::<u8>::empty());
    assert(r4 =~= fd);
    lemma_parse_format_octet(d as u32, Seq::<u8>::empty());
    assert(fd + Seq::<u8>::empty() =~= fd);
    assert(spec_ip_from_octets(a, b, c, d) == ip);
}

/// Pure sequence algebra: a byte string that decomposes into four pieces
/// separated by dots equals their concatenation.
proof fn lemma_assemble_quad(
    bytes: Seq<u8>,
    b2: Seq<u8>,
    b3: Seq<u8>,
    b4: Seq<u8>,
    i: int,
    j: int,
    k: int,
    l: int,
    fa: Seq<u8>,
    fb: Seq<u8>,
    fc: Seq<u8>,
    fd: Seq<u8>,
)
    requires
        0 <= i < bytes.len(),
        bytes.subrange(0, i) == fa,
        bytes[i] == 46,
        b2 == bytes.skip(i + 1),
        0 <= j < b2.len(),
        b2.subrange(0, j) == fb,
        b2[j] == 46,
        b3 == b2.skip(j + 1),
        0 <= k < b3.len(),
        b3.subrange(0, k) == fc,
        b3[k] == 46,
        b4 == b3.skip(k + 1),
        0 <= l,
        l == b4.len(),
        b4.subrange(0, l) == fd,
    ensures
        bytes == fa + seq![46u8] + fb + seq![46u8] + fc + seq![46u8] + fd,
{
    assert(bytes =~= fa + seq![46u8] + fb + seq![46u8] + fc + seq![46u8] + fd);
}

/// Exactness: only the canonical dotted quad of an address parses to it.
pub proof fn lemma_parse_ip_canonical(bytes: Seq<u8>)
    ensures
        spec_parse_ip(bytes) matches Some(ip) ==> bytes == spec_format_ip(ip),
{
    reveal(spec_parse_ip);
    match spec_parse_ip(bytes) {
        None => {},
        Some(ip) => {
            let (a, i) = spec_parse_octet(bytes).unwrap();
            let b2 = bytes.skip(i + 1);
            let (o2, j) = spec_parse_octet(b2).unwrap();
            let b3 = b2.skip(j + 1);
            let (o3, k) = spec_parse_octet(b3).unwrap();
            let b4 = b3.skip(k + 1);
            let (o4, l) = spec_parse_octet(b4).unwrap();
            lemma_parse_octet_canonical(bytes);
            lemma_parse_octet_canonical(b2);
            lemma_parse_octet_canonical(b3);
            lemma_parse_octet_canonical(b4);
            lemma_octets_of_from(a as u8, o2 as u8, o3 as u8, o4 as u8);
            lemma_assemble_quad(
                bytes,
                b2,
                b3,
                b4,
                i,
                j,
                k,
                l,
                spec_format_octet(a),
                spec_format_octet(o2),
                spec_format_octet(o3),
                spec_format_octet(o4),
            );
        },
    }
}

/// All-ASCII byte sequences are valid UTF-8.
pub proof fn lemma_ascii_valid_utf8(bytes: Seq<u8>)
    requires
        forall|i: int| 0 <= i < bytes.len() ==> bytes[i] < 128,
    ensures
        valid_utf8(bytes),
{
    assert(forall|i: int|
        0 <= i < bytes.len() ==> is_leading_byte_width_1(#[trigger] bytes[i]));
    assert(bytes.subrange(0, 0) =~= Seq::<u8>::empty());
    assert(partial_valid_utf8(bytes, 0));
    partial_valid_utf8_extend_ascii_block(bytes, 0, bytes.len() as int);
    assert(bytes.subrange(0, bytes.len() as int) =~= bytes);
}

/// Every byte of a canonical dotted quad is an ASCII digit or the dot.
proof fn lemma_format_ip_ascii(ip: u32)
    ensures
        forall|i: int| 0 <= i < spec_format_ip(ip).len() ==> spec_format_ip(ip)[i] < 128,
{
    reveal(spec_format_octet);
}

/// Appends the canonical decimal digits of one octet to `out`.
fn push_octet(out: &mut Vec<u8>, v: u8)
    ensures
        final(out)@ == old(out)@ + spec_format_octet(v as u32),
{
    proof {
        reveal(spec_format_octet);
    }
    let v32 = v as u32;
    if v32 < 10 {
        out.push((48 + v32) as u8);
        assert(out@ =~= old(out)@ + spec_format_octet(v as u32));
    } else if v32 < 100 {
        out.push((48 + v32 / 10) as u8);
        out.push((48 + v32 % 10) as u8);
        assert(out@ =~= old(out)@ + spec_format_octet(v as u32));
    } else {
        out.push((48 + v32 / 100) as u8);
        out.push((48 + (v32 / 10) % 10) as u8);
        out.push((48 + v32 % 10) as u8);
        assert(out@ =~= old(out)@ + spec_format_octet(v as u32));
    }
}

/// Renders an address as its canonical dotted quad.
pub fn format_ipv4(ip: u32) -> (r: String)
    ensures
        encode_utf8(r@) == spec_format_ip(ip),
        r@ == decode_utf8(spec_format_ip(ip)),
{
    let (a, b, c, d) = octets(ip);
    let mut out: Vec<u8> = Vec::new();
    push_octet(&mut out, a);
    out.push(46);
    push_octet(&mut out, b);
    out.push(46);
    push_octet(&mut out, c);
    out.push(46);
    push_octet(&mut out, d);
    proof {
        assert(out@ =~= spec_format_ip(ip));
        lemma_format_ip_ascii(ip);
        lemma_ascii_valid_utf8(out@);
        decode_utf8_encode_utf8(out@);
    }
    let r = match string_from_utf8(out) {
        Ok(s) => s,
        Err(_) => {
            proof {
                assert(false);
            }
            String::new()
        },
    };
    r
}

/// Renders a list of addresses as dotted-quad strings, in order.
pub fn ips_as_strings(ips: &Vec<u32>) -> (r: Vec<String>)
    ensures
        r@.len() == ips@.len(),
        forall|i: int|
            0 <= i < r@.len() ==> encode_utf8(#[trigger] r@[i]@) == spec_format_ip(ips@[i]),
{
    let mut out: Vec<String> = Vec::new();
    let mut i: usize = 0;
    while i < ips.len()
        invariant
            out@.len() == i,
            i <= ips@.len(),
            forall|j: int|
                0 <= j < i ==> encode_utf8(#[trigger] out@[j]@) == spec_format_ip(ips@[j]),
        decreases ips@.len() - i,
    {
        out.push(format_ipv4(ips[i]));
        i = i + 1;
    }
    out
}

/// Parses one canonical octet of `b` at `pos`.
fn parse_octet_at(b: &[u8], pos: usize) -> (r: Option<(u32, usize)>)
    requires
        pos <= b@.len(),
    ensures
        match r {
            Some((v, i)) => spec_parse_octet(b@.skip(pos as int)) == Some((v, i as int)) && pos + i
                <= b@.len() && 1 <= i <= 3,
            None => spec_parse_octet(b@.skip(pos as int)) is None,
        },
{
    proof {
        reveal(spec_parse_octet);
    }
    let ghost s = b@.skip(pos as int);
    let n = b.len();
    if pos >= n || !(48 <= b[pos] && b[pos] <= 57) {
        return None;
    }
    assert(s[0] == b@[pos as int]);
    let d0 = b[pos];
    if d0 == 48 {
        return Some((0, 1));
    }
    if pos + 1 >= n || !(48 <= b[pos + 1] && b[pos + 1] <= 57) {
        return Some(((d0 - 48) as u32, 1));
    }
    assert(s[1] == b@[pos as int + 1]);
    let d1 = b[pos + 1];
    if pos + 2 >= n || !(48 <= b[pos + 2] && b[pos + 2] <= 57) {
        return Some(((d0 - 48) as u32 * 10 + (d1 - 48) as u32, 2));
    }
    assert(s[2] == b@[pos as int + 2]);
    let d2 = b[pos + 2];
    let v: u32 = (d0 - 48) as u32 * 100 + (d1 - 48) as u32 * 10 + (d2 - 48) as u32;
    if v <= 255 && !(pos + 3 < n && 48 <= b[pos + 3] && b[pos + 3] <= 57) {
        proof {
            if pos + 3 < n {
                assert(s[3] == b@[pos as int + 3]);
            }
        }
        Some((v, 3))
    } else {
        proof {
            if pos + 3 < n {
                assert(s[3] == b@[pos as int + 3]);
            }
        }
        None
    }
}

/// Parses a string as a canonical dotted quad: `Some` exactly when the
/// string's bytes spell `spec_format_ip` of the returned address.
pub fn parse_ipv4(s: &str) -> (r: Option<u32>)
    ensures
        r == spec_parse_ip(encode_utf8(s@)),
        r matches Some(ip) ==> encode_utf8(s@) == spec_format_ip(ip),
{
    let bytes = s.as_bytes();
    let ghost w = encode_utf8(s@);
    proof {
        lemma_parse_ip_canonical(w);
    }
    let r = parse_ipv4_bytes(bytes);
    r
}

/// Parses a byte slice as a canonical dotted quad.
#[verifier::rlimit(100)]
pub fn parse_ipv4_bytes(bytes: &[u8]) -> (r: Option<u32>)
    ensures
        r == spec_parse_ip(bytes@),
{
    let ghost w = bytes@;
    let n = bytes.len();
    proof {
        reveal(spec_parse_ip);
        assert(w.skip(0) =~= w);
    }
    let (a, i) = match parse_octet_at(bytes, 0) {
        Some(x) => x,
        None => {
            return None;
        },
    };
    if !(i < n && bytes[i] == 46) {
        return None;
    }
    let ghost b2 = w.skip(i as int + 1);
    let (o2, j) = match parse_octet_at(bytes, i + 1) {
        Some(x) => x,
        None => {
            return None;
        },
    };
    let p2 = i + 1 + j;
    proof {
        assert(b2.skip(j as int) =~= w.skip(i as int + 1 + j));
    }
    if !(p2 < n && bytes[p2] == 46) {
        proof {
            if (j as int) < b2.len() {
                assert(b2[j as int] == w[p2 as int]);
            }
        }
        return None;
    }
    assert(b2[j as int] == w[p2 as int]);
    let ghost b3 = b2.skip(j as int + 1);
    proof {
        assert(b3 =~= w.skip(p2 as int + 1));
    }
    let (o3, k) = match parse_octet_at(bytes, p2 + 1) {
        Some(x) => x,
        None => {
            return None;
        },
    };
    let p3 = p2 + 1 + k;
    proof {
        assert(b3.skip(k as int) =~= w.skip(p3 as int));
    }
    if !(p3 < n && bytes[p3] == 46) {
        proof {
            if (k as int) < b3.len() {
                assert(b3[k as int] == w[p3 as int]);
            }
        }
        return None;
    }
    assert(b3[k as int] == w[p3 as int]);
    let ghost b4 = b3.skip(k as int + 1);
    proof {
        assert(b4 =~= w.skip(p3 as int + 1));
    }
    let (o4, l) = match parse_octet_at(bytes, p3 + 1) {
        Some(x) => x,
        None => {
            return None;
        },
    };
    let p4 = p3 + 1 + l;
    if p4 != n {
        return None;
    }
    proof {
        lemma_parse_octet_canonical(w);
        lemma_parse_octet_canonical(b2);
        lemma_parse_octet_canonical(b3);
        lemma_parse_octet_canonical(b4);
    }
    Some(ip_from_octets(a as u8, o2 as u8, o3 as u8, o4 as u8))
}

} // verus!
