//! Length-prefixed UTF-8 strings as the status protocol frames them: a
//! variable-length integer carrying the byte count, then that many UTF-8
//! bytes.

use vstd::prelude::*;
use vstd::slice::{slice_subrange, slice_to_vec};
use vstd::string::StringSliceAdditionalSpecFns;
use vstd::utf8::{decode_utf8, decode_utf8_encode_utf8, encode_utf8, encode_utf8_decode_utf8,
    encode_utf8_valid_utf8, valid_utf8};
use crate::varint::{lemma_varint_round_trip, spec_varint, spec_varint_parse, VarInt, VARINT_MAX};

verus! {

/// The wire encoding of the character sequence `s`: byte count as a
/// variable-length integer, then the UTF-8 bytes.
pub open spec fn spec_string_enc(s: Seq<char>) -> Seq<u8> {
    spec_varint(encode_utf8(s).len() as u64) + encode_utf8(s)
}

/// Parses one length-prefixed string from the front of `b`: the decoded
/// characters and the bytes consumed, or nothing when the length prefix is
/// malformed, the bytes are truncated, or they are not valid UTF-8.
pub open spec fn spec_parse_string(b: Seq<u8>) -> Option<(Seq<char>, int)> {
    match spec_varint_parse(b, 5) {
        None => None,
        Some((sz, k)) => {
            if b.len() < k + sz {
                None
            } else {
                let bytes = b.subrange(k as int, k as int + sz);
                if valid_utf8(bytes) {
                    Some((decode_utf8(bytes), k + sz))
                } else {
                    None
                }
            }
        },
    }
}

/// Relies on `String::from_utf8`: it succeeds exactly on valid UTF-8 input
/// and returns the string those bytes spell.
#[verifier::external_body]
pub(crate) fn string_from_utf8(bytes: Vec<u8>) -> (r: Result<String, ()>)
    ensures
        r is Ok <==> valid_utf8(bytes@),
        r matches Ok(s) ==> s@ == decode_utf8(bytes@),
{
    match String::from_utf8(bytes) {
        Ok(s) => Ok(s),
        Err(_) => Err(()),
    }
}

/// A string travelling on the wire in length-prefixed form.
pub struct ProtocolString {
    internal: String,
}

impl ProtocolString {
    /// The characters this value carries.
    pub closed spec fn view(&self) -> Seq<char> {
        self.internal@
    }

    /// Wraps an in-memory string.
    pub fn from_str(s: &str) -> (r: ProtocolString)
        ensures
            r@ == s@,
    {
        ProtocolString { internal: s.to_owned() }
    }

    /// Reads one length-prefixed string from `buf` starting at `*pos`,
    /// advancing `*pos` past it. Fails exactly when no well-formed string
    /// starts there.
    pub fn from_stream(buf: &[u8], pos: &mut usize) -> (r: Result<ProtocolString, ()>)
        requires
            *old(pos) <= buf@.len(),
        ensures
            match r {
                Ok(p) => {
                    &&& spec_parse_string(buf@.skip(*old(pos) as int)) == Some(
                        (p@, *final(pos) - *old(pos)),
                    )
                    &&& *old(pos) < *final(pos) <= buf@.len()
                },
                Err(_) => {
                    &&& spec_parse_string(buf@.skip(*old(pos) as int)) is None
                    &&& *final(pos) == *old(pos)
                },
            },
    {
        let ghost s = buf@.skip(*old(pos) as int);
        let start = *pos;
        let size = match VarInt::from_stream(buf, pos) {
            Ok(v) => v.int_val(),
            Err(_) => {
                return Err(());
            },
        };
        let ghost k = *pos - start;
        let remaining = buf.len() - *pos;
        if size > remaining as u64 {
            proof {
                assert(s.len() - k < size);
            }
            *pos = start;
            return Err(());
        }
        let byte_slice = slice_subrange(buf, *pos, *pos + size as usize);
        proof {
            assert(byte_slice@ =~= s.subrange(k as int, k as int + size as int));
        }
        let bytes = slice_to_vec(byte_slice);
        match string_from_utf8(bytes) {
            Ok(text) => {
                *pos = *pos + size as usize;
                Ok(ProtocolString { internal: text })
            },
            Err(_) => {
                *pos = start;
                Err(())
            },
        }
    }

    /// Appends the wire encoding — byte count, then UTF-8 bytes — to `s`.
    pub fn write_to_stream(&self, s: &mut Vec<u8>)
        requires
            encode_utf8(self@).len() <= VARINT_MAX,
        ensures
            final(s)@ == old(s)@ + spec_string_enc(self@),
    {
        let mut bytes = self.internal.as_str().as_bytes_vec();
        let size = VarInt::from_int(bytes.len() as u64);
        size.write_to_stream(s);
        s.append(&mut bytes);
        assert(s@ =~= old(s)@ + spec_string_enc(self@));
    }

    /// The carried string, borrowed.
    pub fn to_str(&self) -> (r: &str)
        ensures
            r@ == self@,
    {
        self.internal.as_str()
    }
}

/// Round trip: a string encoded and then parsed comes back unchanged, with
/// exactly its own bytes consumed, whatever follows them on the wire.
pub proof fn lemma_string_round_trip(s: Seq<char>, tail: Seq<u8>)
    requires
        encode_utf8(s).len() <= VARINT_MAX,
    ensures
        spec_parse_string(spec_string_enc(s) + tail) == Some(
            (s, spec_string_enc(s).len() as int),
        ),
{
    broadcast use encode_utf8_valid_utf8;
    broadcast use encode_utf8_decode_utf8;

    let bytes = encode_utf8(s);
    let n = bytes.len() as u64;
    lemma_varint_round_trip(n, bytes + tail);
    let whole = spec_string_enc(s) + tail;
    assert(whole =~= spec_varint(n) + (bytes + tail));
    let k = spec_varint(n).len();
    assert(spec_varint_parse(whole, 5) == Some((n as int, k)));
    assert(whole.subrange(k as int, k as int + n as int) =~= bytes);
}

} // verus!
