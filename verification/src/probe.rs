//! The client prober's computations: the bytes of the two-packet status
//! exchange, the parse of the framed status reply, and the report posted
//! back to the dispatcher.

use vstd::prelude::*;
use vstd::utf8::encode_utf8;
use crate::ip::{format_ipv4, spec_format_ip, spec_parse_ip};
use crate::mc_packet::{spec_handshake_data, MCPacket, PacketParseError};
use crate::protocol_string::spec_parse_string;
use crate::varint::{lemma_varint_round_trip, spec_varint, spec_varint_parse, VARINT_MAX};

verus! {

/// A probe could not validate the target as a live service.
#[derive(Debug)]
pub struct InvalidServerError(pub String);

impl InvalidServerError {
    /// Wraps a description.
    pub fn new(s: &str) -> (r: Self)
        ensures
            r.0@ == s@,
    {
        Self(s.to_owned())
    }

    /// The human-readable description of the failure.
    pub fn message(&self) -> (r: String)
        ensures
            r@ == self.0@,
    {
        self.0.clone()
    }
}

/// The framing of a whole packet around a body: length, then the body
/// (packet id plus payload).
pub open spec fn spec_frame(body: Seq<u8>) -> Seq<u8> {
    spec_varint(body.len() as u64) + body
}

/// Everything the prober writes to the target: the handshake packet, then
/// the empty status request.
pub open spec fn spec_status_request(address: Seq<char>, port: u16) -> Seq<u8> {
    spec_frame(spec_varint(0) + spec_handshake_data(address, port)) + spec_frame(spec_varint(0))
}

/// Builds the bytes of the status exchange for one target: the handshake
/// packet followed by the empty status request.
pub fn status_request_bytes(address: &str, port: u16) -> (r: Vec<u8>)
    requires
        encode_utf8(address@).len() + 18 <= VARINT_MAX,
    ensures
        r@ == spec_status_request(address@, port),
{
    proof {
        lemma_varint_round_trip(0, Seq::<u8>::empty());
        lemma_varint_round_trip(760, Seq::<u8>::empty());
        lemma_varint_round_trip(1, Seq::<u8>::empty());
        lemma_varint_round_trip(
            encode_utf8(address@).len() as u64,
            Seq::<u8>::empty(),
        );
    }
    let handshake = MCPacket::status_handshake(address, port);
    let mut out = handshake.to_bytes();
    let request = MCPacket::new(0);
    request.write_to_stream(&mut out);
    proof {
        assert(out@ =~= spec_status_request(address@, port));
    }
    out
}

/// Parses a framed status reply: a length, a packet id (both read and
/// discarded), then one length-prefixed UTF-8 string — the JSON text.
pub open spec fn spec_status_response(b: Seq<u8>) -> Option<Seq<char>> {
    match spec_varint_parse(b, 5) {
        None => None,
        Some((_, k1)) => {
            let b2 = b.skip(k1 as int);
            match spec_varint_parse(b2, 5) {
                None => None,
                Some((_, k2)) => {
                    match spec_parse_string(b2.skip(k2 as int)) {
                        None => None,
                        Some((text, _)) => Some(text),
                    }
                },
            }
        },
    }
}

/// Reads the status reply from the received bytes. Succeeds exactly when
/// they start with two variable-length integers and a well-formed string.
pub fn parse_status_response(buf: &[u8]) -> (r: Result<String, PacketParseError>)
    ensures
        match r {
            Ok(t) => spec_status_response(buf@) == Some(t@),
            Err(_) => spec_status_response(buf@) is None,
        },
{
    let mut pos: usize = 0;
    proof {
        assert(buf@.skip(0) =~= buf@);
    }
    let _packet_size = match MCPacket::read_var_int(buf, &mut pos) {
        Ok(v) => v,
        Err(e) => {
            return Err(e);
        },
    };
    let ghost k1 = pos as int;
    let _packet_id = match MCPacket::read_var_int(buf, &mut pos) {
        Ok(v) => v,
        Err(e) => {
            proof {
                assert(buf@.skip(k1) =~= buf@.skip(0).skip(k1));
            }
            return Err(e);
        },
    };
    proof {
        assert(buf@.skip(k1) =~= buf@.skip(0).skip(k1));
        assert(buf@.skip(pos as int) =~= buf@.skip(k1).skip(pos - k1));
    }
    MCPacket::read_string(buf, &mut pos)
}

/// The report the client posts after probing one address.
pub struct ProbeReport {
    /// `up` when the handshake succeeded, `down` otherwise.
    pub status: String,
    /// The probed address as a dotted quad.
    pub ip: String,
    /// The raw JSON text of the status reply, when there is one.
    pub response: Option<String>,
}

/// Builds the report for one probe: `up` with the reply when the
/// handshake produced one, `down` without a reply otherwise.
pub fn probe_report(ip: u32, response: Option<String>) -> (r: ProbeReport)
    ensures
        r.status@ == (if response is Some {
            "up"@
        } else {
            "down"@
        }),
        encode_utf8(r.ip@) == spec_format_ip(ip),
        r.response == response,
{
    let status = if response.is_some() {
        "up".to_owned()
    } else {
        "down".to_owned()
    };
    ProbeReport { status, ip: format_ipv4(ip), response }
}

/// The value of an ASCII decimal digit string, most significant first.
pub open spec fn spec_dec_value(b: Seq<u8>) -> int
    decreases b.len(),
{
    if b.len() == 0 {
        0
    } else {
        spec_dec_value(b.drop_last()) * 10 + (b.last() - 48)
    }
}

/// Parses a byte string as an unsigned 32-bit decimal: digits only, any
/// number of leading zeroes, value within range.
pub open spec fn spec_parse_dec_u32(b: Seq<u8>) -> Option<u32> {
    if b.len() >= 1 && b.len() <= 10 && (forall|i: int|
        0 <= i < b.len() ==> crate::ip::spec_is_digit(#[trigger] b[i])) && spec_dec_value(b)
        <= u32::MAX {
        Some(spec_dec_value(b) as u32)
    } else {
        None
    }
}

/// `10^k`.
pub open spec fn spec_pow10(k: nat) -> int
    decreases k,
{
    if k == 0 {
        1
    } else {
        10 * spec_pow10((k - 1) as nat)
    }
}

/// Powers of ten grow with the exponent.
proof fn lemma_pow10_mono(a: int, b: int)
    requires
        0 <= a <= b,
    ensures
        spec_pow10(a as nat) <= spec_pow10(b as nat),
    decreases b,
{
    if a < b {
        lemma_pow10_mono(a, b - 1);
        lemma_pow10_pos((b - 1) as nat);
    }
}

/// Powers of ten are positive.
proof fn lemma_pow10_pos(k: nat)
    ensures
        spec_pow10(k) >= 1,
    decreases k,
{
    if k > 0 {
        lemma_pow10_pos((k - 1) as nat);
    }
}

/// A digit string of `k` digits has a non-negative value below `10^k`.
proof fn lemma_dec_upper(b: Seq<u8>, k: int)
    requires
        forall|i: int| 0 <= i < b.len() ==> crate::ip::spec_is_digit(#[trigger] b[i]),
        b.len() == k,
        0 <= k,
    ensures
        0 <= spec_dec_value(b) < spec_pow10(k as nat),
    decreases k,
{
    if k > 0 {
        lemma_dec_upper(b.drop_last(), k - 1);
        assert(spec_dec_value(b.drop_last()) * 10 + (b.last() - 48) < spec_pow10(
            (k - 1) as nat,
        ) * 10) by (nonlinear_arith)
            requires
                0 <= b.last() - 48 <= 9,
                spec_dec_value(b.drop_last()) < spec_pow10((k - 1) as nat),
        ;
    }
}

/// Parses a string as an unsigned 32-bit decimal number.
pub fn parse_u32_dec(s: &str) -> (r: Option<u32>)
    ensures
        r == spec_parse_dec_u32(encode_utf8(s@)),
{
    let bytes = s.as_bytes();
    let ghost w = encode_utf8(s@);
    let n = bytes.len();
    if n < 1 || n > 10 {
        return None;
    }
    let mut acc: u64 = 0;
    let mut i: usize = 0;
    while i < n
        invariant
            w == encode_utf8(s@),
            w == bytes@,
            n == w.len(),
            1 <= n <= 10,
            i <= n,
            forall|j: int| 0 <= j < i ==> crate::ip::spec_is_digit(#[trigger] w[j]),
            acc == spec_dec_value(w.take(i as int)),
            acc < 0x2540BE400,
        decreases n - i,
    {
        let c = bytes[i];
        if !(48 <= c && c <= 57) {
            proof {
                assert(!crate::ip::spec_is_digit(w[i as int]));
            }
            return None;
        }
        proof {
            assert(w.take(i as int + 1).drop_last() =~= w.take(i as int));
            assert(w.take(i as int + 1).last() == w[i as int]);
        }
        acc = acc * 10 + (c - 48) as u64;
        i = i + 1;
        proof {
            lemma_dec_upper(w.take(i as int), i as int);
            assert(spec_pow10(10) == 0x2540BE400) by {
                reveal_with_fuel(spec_pow10, 11);
            }
            lemma_pow10_mono(i as int, 10);
        }
    }
    proof {
        assert(w.take(n as int) =~= w);
    }
    if acc > 0xffffffff {
        return None;
    }
    Some(acc as u32)
}

/// Reads the fields of a fetched client job: the id is the decimal string
/// the dispatcher issued, the address a dotted quad. Succeeds exactly when
/// both fields are present and parse.
pub fn parse_client_job(id: Option<String>, ip: Option<String>) -> (r: Option<(u32, u32)>)
    ensures
        match r {
            Some((job_id, addr)) => {
                &&& id matches Some(t) && (spec_parse_dec_u32(encode_utf8(t@)) == Some(job_id))
                &&& ip matches Some(u) && (spec_parse_ip(encode_utf8(u@)) == Some(addr))
            },
            None => {
                ||| id is None
                ||| ip is None
                ||| (id matches Some(t) && spec_parse_dec_u32(encode_utf8(t@)) is None)
                ||| (ip matches Some(u) && spec_parse_ip(encode_utf8(u@)) is None)
            },
        },
{
    let id_text = match id {
        Some(t) => t,
        None => {
            return None;
        },
    };
    let ip_text = match ip {
        Some(u) => u,
        None => {
            return None;
        },
    };
    let job_id = match parse_u32_dec(id_text.as_str()) {
        Some(v) => v,
        None => {
            return None;
        },
    };
    let addr = match crate::ip::parse_ipv4(ip_text.as_str()) {
        Some(v) => v,
        None => {
            return None;
        },
    };
    Some((job_id, addr))
}

} // verus!
