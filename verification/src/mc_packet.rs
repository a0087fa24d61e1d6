//! Framed packets of the status protocol: every packet on the wire is
//! `VarInt(length) || VarInt(packet id) || payload`, where the length counts
//! the id and payload bytes.

use vstd::prelude::*;
use vstd::slice::slice_to_vec;
use vstd::string::{StringSliceAdditionalSpecFns, StrSliceExecFns};
use vstd::utf8::encode_utf8;
use crate::protocol_string::{spec_parse_string, spec_string_enc, string_from_utf8, ProtocolString};
use crate::varint::{encode_varint, spec_varint, spec_varint_parse, VarInt, VARINT_MAX};

verus! {

/// The protocol version the handshake announces.
pub const PROTOCOL_VERSION: u64 = 760;

/// A failure while reading framed data from a peer.
#[derive(Debug)]
pub struct PacketParseError(pub String);

impl PacketParseError {
    /// The human-readable description of the failure.
    pub fn message(&self) -> (r: String)
        ensures
            r@ == self.0@,
    {
        self.0.clone()
    }

    /// Wraps a description.
    pub fn new(s: &str) -> (r: Self)
        ensures
            r.0@ == s@,
    {
        Self(s.to_owned())
    }
}

/// The two big-endian bytes of `v`.
pub open spec fn spec_be16(v: u16) -> Seq<u8> {
    seq![(v / 0x100) as u8, (v % 0x100) as u8]
}

/// The eight big-endian bytes of `v`.
pub open spec fn spec_be64(v: u64) -> Seq<u8> {
    seq![
        (v / 0x100000000000000) as u8,
        ((v / 0x1000000000000) % 0x100) as u8,
        ((v / 0x10000000000) % 0x100) as u8,
        ((v / 0x100000000) % 0x100) as u8,
        ((v / 0x1000000) % 0x100) as u8,
        ((v / 0x10000) % 0x100) as u8,
        ((v / 0x100) % 0x100) as u8,
        (v % 0x100) as u8,
    ]
}

/// The payload of the status handshake: protocol version, server address,
/// server port, and the "status" next-state marker.
pub open spec fn spec_handshake_data(address: Seq<char>, port: u16) -> Seq<u8> {
    spec_varint(PROTOCOL_VERSION) + spec_string_enc(address) + spec_be16(port) + spec_varint(1)
}

/// A packet under construction: the encoded packet id and the payload bytes
/// gathered so far.
pub struct MCPacket {
    id: Vec<u8>,
    data: Vec<u8>,
}

impl MCPacket {
    /// The encoded packet id.
    pub closed spec fn spec_id(&self) -> Seq<u8> {
        self.id@
    }

    /// The payload bytes gathered so far.
    pub closed spec fn spec_data(&self) -> Seq<u8> {
        self.data@
    }

    /// Starts a packet with the given id and an empty payload.
    pub fn new(id: u64) -> (r: Self)
        requires
            id <= VARINT_MAX,
        ensures
            r.spec_id() == spec_varint(id),
            r.spec_data() == Seq::<u8>::empty(),
    {
        MCPacket { id: encode_varint(id), data: Vec::new() }
    }

    /// The number of bytes the frame body (id plus payload) holds, so a
    /// caller can check the framing limit before serializing.
    pub fn body_len(&self) -> (r: usize)
        requires
            self.spec_id().len() + self.spec_data().len() <= usize::MAX,
        ensures
            r == self.spec_id().len() + self.spec_data().len(),
    {
        self.id.len() + self.data.len()
    }

    /// Serializes the frame: body length as a variable-length integer, then
    /// the id bytes, then the payload bytes.
    pub fn to_bytes(&self) -> (r: Vec<u8>)
        requires
            self.spec_id().len() + self.spec_data().len() <= VARINT_MAX,
        ensures
            r@ == spec_varint((self.spec_id().len() + self.spec_data().len()) as u64)
                + self.spec_id() + self.spec_data(),
    {
        let body: u64 = self.id.len() as u64 + self.data.len() as u64;
        let mut result = encode_varint(body);
        let mut id_copy = slice_to_vec(self.id.as_slice());
        result.append(&mut id_copy);
        let mut data_copy = slice_to_vec(self.data.as_slice());
        result.append(&mut data_copy);
        result
    }

    /// Appends the serialized frame to `s`.
    pub fn write_to_stream(&self, s: &mut Vec<u8>)
        requires
            self.spec_id().len() + self.spec_data().len() <= VARINT_MAX,
        ensures
            final(s)@ == old(s)@ + spec_varint(
                (self.spec_id().len() + self.spec_data().len()) as u64,
            ) + self.spec_id() + self.spec_data(),
    {
        let mut bytes = self.to_bytes();
        s.append(&mut bytes);
        assert(s@ =~= old(s)@ + spec_varint((self.spec_id().len() + self.spec_data().len()) as u64)
            + self.spec_id() + self.spec_data());
    }

    /// Appends a variable-length integer to the payload.
    pub fn write_var_int(&mut self, i: u64)
        requires
            i <= VARINT_MAX,
        ensures
            final(self).spec_id() == old(self).spec_id(),
            final(self).spec_data() == old(self).spec_data() + spec_varint(i),
    {
        let mut enc = encode_varint(i);
        self.data.append(&mut enc);
    }

    /// Appends a big-endian 16-bit integer to the payload.
    pub fn write_u16(&mut self, i: u16)
        ensures
            final(self).spec_id() == old(self).spec_id(),
            final(self).spec_data() == old(self).spec_data() + spec_be16(i),
    {
        self.data.push((i / 0x100) as u8);
        self.data.push((i % 0x100) as u8);
        assert(self.data@ =~= old(self).data@ + spec_be16(i));
    }

    /// Appends a big-endian 64-bit integer to the payload.
    pub fn write_i64(&mut self, i: i64)
        ensures
            final(self).spec_id() == old(self).spec_id(),
            final(self).spec_data() == old(self).spec_data() + spec_be64(i as u64),
    {
        let v: u64 = i as u64;
        self.data.push((v / 0x100000000000000) as u8);
        self.data.push(((v / 0x1000000000000) % 0x100) as u8);
        self.data.push(((v / 0x10000000000) % 0x100) as u8);
        self.data.push(((v / 0x100000000) % 0x100) as u8);
        self.data.push(((v / 0x1000000) % 0x100) as u8);
        self.data.push(((v / 0x10000) % 0x100) as u8);
        self.data.push(((v / 0x100) % 0x100) as u8);
        self.data.push((v % 0x100) as u8);
        assert(self.data@ =~= old(self).data@ + spec_be64(v));
    }

    /// Appends a length-prefixed UTF-8 string to the payload.
    pub fn write_string(&mut self, s: &str)
        requires
            encode_utf8(s@).len() <= VARINT_MAX,
        ensures
            final(self).spec_id() == old(self).spec_id(),
            final(self).spec_data() == old(self).spec_data() + spec_string_enc(s@),
    {
        let mut bytes = s.as_bytes_vec();
        self.write_var_int(bytes.len() as u64);
        self.data.append(&mut bytes);
        assert(self.data@ =~= old(self).data@ + spec_string_enc(s@));
    }

    /// Reads one variable-length integer from `buf` at `*pos`, advancing
    /// `*pos`. Fails exactly when the bytes there are truncated or overlong.
    pub fn read_var_int(buf: &[u8], pos: &mut usize) -> (r: Result<u64, PacketParseError>)
        requires
            *old(pos) <= buf@.len(),
        ensures
            match r {
                Ok(v) => {
                    &&& spec_varint_parse(buf@.skip(*old(pos) as int), 5) == Some(
                        (v as int, (*final(pos) - *old(pos)) as nat),
                    )
                    &&& *old(pos) < *final(pos) <= buf@.len()
                },
                Err(_) => {
                    &&& spec_varint_parse(buf@.skip(*old(pos) as int), 5) is None
                    &&& *final(pos) == *old(pos)
                },
            },
    {
        match VarInt::from_stream(buf, pos) {
            Ok(v) => Ok(v.int_val()),
            Err(_) => Err(PacketParseError::new("Ran out of bytes trying to read VarInt")),
        }
    }

    /// Reads one length-prefixed UTF-8 string from `buf` at `*pos`,
    /// advancing `*pos`. Fails exactly when no well-formed string starts
    /// there.
    pub fn read_string(buf: &[u8], pos: &mut usize) -> (r: Result<String, PacketParseError>)
        requires
            *old(pos) <= buf@.len(),
        ensures
            match r {
                Ok(t) => {
                    &&& spec_parse_string(buf@.skip(*old(pos) as int)) == Some(
                        (t@, *final(pos) - *old(pos)),
                    )
                    &&& *old(pos) < *final(pos) <= buf@.len()
                },
                Err(_) => {
                    &&& spec_parse_string(buf@.skip(*old(pos) as int)) is None
                    &&& *final(pos) == *old(pos)
                },
            },
    {
        match ProtocolString::from_stream(buf, pos) {
            Ok(p) => Ok(p.to_str().to_owned()),
            Err(_) => Err(PacketParseError::new("Error reading string from stream")),
        }
    }

    /// Builds the two-field status handshake packet: protocol version,
    /// server address and port, and next-state "status".
    pub fn status_handshake(address: &str, port: u16) -> (r: Self)
        requires
            encode_utf8(address@).len() <= VARINT_MAX,
        ensures
            r.spec_id() == spec_varint(0),
            r.spec_data() == spec_handshake_data(address@, port),
    {
        let mut packet = Self::new(0);
        packet.write_var_int(PROTOCOL_VERSION);
        packet.write_string(address);
        packet.write_u16(port);
        packet.write_var_int(1);
        assert(packet.spec_data() =~= spec_handshake_data(address@, port));
        packet
    }

    /// Encodes an integer as its variable-length wire bytes.
    pub fn int_to_var_int(i: u64) -> (r: Vec<u8>)
        requires
            i <= VARINT_MAX,
        ensures
            r@ == spec_varint(i),
    {
        encode_varint(i)
    }
}

} // verus!
