//! Little-endian base-128 variable-length integers: the framing primitive of
//! the status protocol. Each byte carries seven payload bits, least
//! significant group first; the high bit of a byte announces a continuation.
//! An encoding is at most five bytes (35 bits), and zero encodes as a single
//! zero byte.

use vstd::prelude::*;

verus! {

/// Largest value a five-byte encoding can carry: `2^35 - 1`.
pub const VARINT_MAX: u64 = 0x7_ffff_ffff;

/// `128^k`, the weight of the `k`-th encoded byte group.
pub open spec fn pow128(k: nat) -> int
    decreases k,
{
    if k == 0 {
        1
    } else {
        128 * pow128((k - 1) as nat)
    }
}

/// Encoding of a positive value: low seven bits first, continuation bit set
/// while more groups follow. Empty for zero.
pub open spec fn spec_varint_pos(n: u64) -> Seq<u8>
    decreases n,
{
    if n == 0 {
        Seq::empty()
    } else {
        seq![(n % 128 + if n / 128 == 0 { 0u64 } else { 128u64 }) as u8] + spec_varint_pos(n / 128)
    }
}

/// The wire encoding of `n`: a single zero byte for zero, otherwise the
/// continuation-bit groups of `spec_varint_pos`.
pub open spec fn spec_varint(n: u64) -> Seq<u8> {
    if n == 0 {
        seq![0u8]
    } else {
        spec_varint_pos(n)
    }
}

/// Parses a variable-length integer from the front of `b`, reading at most
/// `limit` bytes. Returns the value and the number of bytes consumed, or
/// nothing when the bytes are truncated or overlong.
pub open spec fn spec_varint_parse(b: Seq<u8>, limit: nat) -> Option<(int, nat)>
    decreases limit,
{
    if limit == 0 || b.len() == 0 {
        None
    } else {
        let byte = b[0];
        if byte & 0x80 == 0 {
            Some((byte as int, 1))
        } else {
            match spec_varint_parse(b.drop_first(), (limit - 1) as nat) {
                None => None,
                Some((v, k)) => Some(((byte & 0x7f) as int + 128 * v, (k + 1) as nat)),
            }
        }
    }
}

/// Every byte of a positive encoding is non-zero: continuation bytes carry
/// the high bit, and the final byte is the leading non-zero group.
pub proof fn lemma_varint_pos_nonzero(n: u64)
    ensures
        forall|i: int| 0 <= i < spec_varint_pos(n).len() ==> spec_varint_pos(n)[i] != 0,
    decreases n,
{
    if n != 0 {
        lemma_varint_pos_nonzero(n / 128);
        let first = (n % 128 + if n / 128 == 0 { 0u64 } else { 128u64 }) as u8;
        assert(first != 0);
        assert(forall|i: int|
            1 <= i < spec_varint_pos(n).len() ==> spec_varint_pos(n)[i] == spec_varint_pos(
                n / 128,
            )[i - 1]);
    }
}

/// A value below `128^k` encodes in at most `k` groups.
pub proof fn lemma_varint_pos_len(n: u64, k: nat)
    requires
        n < pow128(k),
    ensures
        spec_varint_pos(n).len() <= k,
    decreases n,
{
    if n != 0 {
        assert(k > 0);
        assert(n / 128 < pow128((k - 1) as nat));
        lemma_varint_pos_len(n / 128, (k - 1) as nat);
    }
}

/// Powers of 128 are positive.
pub proof fn lemma_pow128_pos(k: nat)
    ensures
        pow128(k) >= 1,
    decreases k,
{
    if k > 0 {
        lemma_pow128_pos((k - 1) as nat);
    }
}

/// Powers of 128 grow with the exponent.
pub proof fn lemma_pow128_mono(a: nat, b: nat)
    requires
        a <= b,
    ensures
        pow128(a) <= pow128(b),
    decreases b,
{
    if a < b {
        lemma_pow128_mono(a, (b - 1) as nat);
        lemma_pow128_pos((b - 1) as nat);
    }
}

/// A parse that consumed `k` bytes produced a value below `128^k`.
pub proof fn lemma_varint_parse_bound(b: Seq<u8>, limit: nat)
    ensures
        spec_varint_parse(b, limit) matches Some(r) ==> 0 <= r.0 < pow128(r.1) && 1 <= r.1
            <= limit,
    decreases limit,
{
    if limit > 0 && b.len() > 0 {
        let byte = b[0];
        assert(pow128(1) == 128) by {
            reveal_with_fuel(pow128, 2);
        }
        if byte & 0x80 == 0 {
            assert(byte < 128) by (bit_vector)
                requires
                    byte & 0x80 == 0,
            ;
        } else {
            lemma_varint_parse_bound(b.drop_first(), (limit - 1) as nat);
            match spec_varint_parse(b.drop_first(), (limit - 1) as nat) {
                Some((v, k)) => {
                    assert((byte & 0x7f) < 128) by (bit_vector);
                    assert(pow128((k + 1) as nat) == 128 * pow128(k));
                },
                None => {},
            }
        }
    }
}

/// Round trip for positive values: parsing the encoding of `n` in front of
/// any tail yields `n` and consumes exactly the encoding.
proof fn lemma_varint_pos_round_trip(n: u64, tail: Seq<u8>, limit: nat)
    requires
        0 < n < pow128(limit),
    ensures
        spec_varint_parse(spec_varint_pos(n) + tail, limit) == Some(
            (n as int, spec_varint_pos(n).len()),
        ),
    decreases n,
{
    let first = (n % 128 + if n / 128 == 0 { 0u64 } else { 128u64 }) as u8;
    let s = spec_varint_pos(n) + tail;
    assert(s[0] == first);
    assert(limit > 0);
    if n / 128 == 0 {
        assert(first & 0x80 == 0 && first == n) by (bit_vector)
            requires
                n < 128 && first == (n % 128 + 0) as u8,
        ;
        assert(spec_varint_pos(n / 128) =~= Seq::<u8>::empty());
        assert(spec_varint_pos(n).len() == 1);
    } else {
        assert(first & 0x80 != 0 && (first & 0x7f) == n % 128) by (bit_vector)
            requires
                first == (n % 128 + 128) as u8,
        ;
        assert(n / 128 < pow128((limit - 1) as nat));
        lemma_varint_pos_round_trip(n / 128, tail, (limit - 1) as nat);
        assert(s.drop_first() =~= spec_varint_pos(n / 128) + tail);
        assert((first & 0x7f) as int + 128 * (n / 128) as int == n as int);
    }
}

/// Round trip: for any `n` within the 35-bit limit, decoding the encoding of
/// `n` yields `n` back and consumes exactly the encoded bytes, whatever
/// follows them on the wire.
pub proof fn lemma_varint_round_trip(n: u64, tail: Seq<u8>)
    requires
        n <= VARINT_MAX,
    ensures
        spec_varint_parse(spec_varint(n) + tail, 5) == Some((n as int, spec_varint(n).len())),
        1 <= spec_varint(n).len() <= 5,
{
    if n == 0 {
        let s = spec_varint(0) + tail;
        assert(s[0] == 0u8);
        assert(0u8 & 0x80 == 0) by (bit_vector);
    } else {
        assert(pow128(5) == 0x8_0000_0000) by {
            reveal_with_fuel(pow128, 6);
        }
        lemma_varint_pos_round_trip(n, tail, 5);
        lemma_varint_pos_len(n, 5);
    }
}

/// Encodes a positive value, least significant seven-bit group first.
fn encode_varint_pos(n: u64) -> (v: Vec<u8>)
    ensures
        v@ == spec_varint_pos(n),
    decreases n,
{
    if n == 0 {
        let v: Vec<u8> = Vec::new();
        assert(v@ =~= spec_varint_pos(0));
        v
    } else {
        let byte: u8 = ((n % 128) + if n / 128 == 0 { 0u64 } else { 128u64 }) as u8;
        let mut v: Vec<u8> = Vec::new();
        v.push(byte);
        let mut rest = encode_varint_pos(n / 128);
        v.append(&mut rest);
        assert(v@ =~= spec_varint_pos(n));
        v
    }
}

/// Encodes `n` as its wire bytes.
pub fn encode_varint(n: u64) -> (v: Vec<u8>)
    requires
        n <= VARINT_MAX,
    ensures
        v@ == spec_varint(n),
        1 <= v@.len() <= 5,
{
    proof {
        assert(pow128(5) == 0x8_0000_0000) by {
            reveal_with_fuel(pow128, 6);
        }
        lemma_varint_pos_len(n, 5);
    }
    if n == 0 {
        let mut v: Vec<u8> = Vec::new();
        v.push(0);
        assert(v@ =~= spec_varint(0));
        v
    } else {
        let v = encode_varint_pos(n);
        proof {
            if v@.len() == 0 {
                assert(false);
            }
        }
        v
    }
}

/// Parses a variable-length integer at `pos`, reading at most `limit` bytes.
fn parse_varint_at(buf: &[u8], pos: usize, limit: usize) -> (r: Option<(u64, usize)>)
    requires
        pos <= buf@.len(),
        limit <= 5,
    ensures
        match r {
            Some((v, n)) => {
                &&& spec_varint_parse(buf@.skip(pos as int), limit as nat) == Some(
                    (v as int, n as nat),
                )
                &&& pos + n <= buf@.len()
                &&& 1 <= n <= limit
            },
            None => spec_varint_parse(buf@.skip(pos as int), limit as nat) is None,
        },
    decreases limit,
{
    let ghost s = buf@.skip(pos as int);
    if limit == 0 || pos == buf.len() {
        return None;
    }
    let byte = buf[pos];
    assert(s[0] == byte);
    if byte & 0x80 == 0 {
        Some((byte as u64, 1))
    } else {
        assert(s.drop_first() =~= buf@.skip(pos as int + 1));
        match parse_varint_at(buf, pos + 1, limit - 1) {
            None => None,
            Some((v, n)) => {
                proof {
                    lemma_varint_parse_bound(buf@.skip(pos as int + 1), (limit - 1) as nat);
                    assert(pow128(4) == 0x1000_0000 && pow128(3) < pow128(4) && pow128(2) < pow128(
                        3,
                    ) && pow128(1) < pow128(2) && pow128(0) < pow128(1)) by {
                        reveal_with_fuel(pow128, 5);
                    }
                    assert(v < 0x1000_0000);
                    assert((byte & 0x7f) < 128) by (bit_vector);
                }
                let value: u64 = (byte & 0x7f) as u64 + 128 * v;
                Some((value, n + 1))
            },
        }
    }
}

/// A variable-length integer together with its encoded form, as it travels
/// on the wire.
pub struct VarInt {
    int_val: u64,
    byte_arr: [u8; 5],
}

impl VarInt {
    /// The value this encoding carries.
    pub closed spec fn spec_int_val(&self) -> u64 {
        self.int_val
    }

    /// The stored bytes are the encoding of the stored value, padded with
    /// zeroes to the fixed width.
    pub closed spec fn wf(&self) -> bool {
        &&& self.int_val <= VARINT_MAX
        &&& self.byte_arr@.len() == 5
        &&& spec_varint_pos(self.int_val).len() <= 5
        &&& self.byte_arr@.take(spec_varint_pos(self.int_val).len() as int) == spec_varint_pos(
            self.int_val,
        )
        &&& forall|i: int|
            spec_varint_pos(self.int_val).len() <= i < 5 ==> self.byte_arr@[i] == 0
    }

    /// The value this encoding carries.
    pub fn int_val(&self) -> (r: u64)
        ensures
            r == self.spec_int_val(),
    {
        self.int_val
    }

    /// The stored fixed-width buffer.
    pub closed spec fn spec_byte_arr(&self) -> [u8; 5] {
        self.byte_arr
    }

    /// The fixed-width byte buffer: the encoding, zero-padded.
    pub fn byte_arr(&self) -> (r: [u8; 5])
        ensures
            r == self.spec_byte_arr(),
    {
        self.byte_arr
    }

    /// Builds the encoding of `i`. Values above the 35-bit limit have no
    /// five-byte encoding and are refused by the precondition.
    pub fn from_int(i: u64) -> (r: VarInt)
        requires
            i <= VARINT_MAX,
        ensures
            r.wf(),
            r.spec_int_val() == i,
    {
        let enc = encode_varint_pos(i);
        proof {
            assert(pow128(5) == 0x8_0000_0000) by {
                reveal_with_fuel(pow128, 6);
            }
            lemma_varint_pos_len(i, 5);
        }
        let b0: u8 = if enc.len() > 0 { enc[0] } else { 0 };
        let b1: u8 = if enc.len() > 1 { enc[1] } else { 0 };
        let b2: u8 = if enc.len() > 2 { enc[2] } else { 0 };
        let b3: u8 = if enc.len() > 3 { enc[3] } else { 0 };
        let b4: u8 = if enc.len() > 4 { enc[4] } else { 0 };
        let arr = [b0, b1, b2, b3, b4];
        let r = VarInt { int_val: i, byte_arr: arr };
        proof {
            assert(r.byte_arr@.take(spec_varint_pos(i).len() as int) =~= spec_varint_pos(i));
        }
        r
    }

    /// Builds the encoding of `i`, refusing values above the 35-bit limit,
    /// which no five-byte encoding can carry.
    pub fn try_from_int(i: u64) -> (r: Option<VarInt>)
        ensures
            r matches Some(v) ==> i <= VARINT_MAX && v.wf() && v.spec_int_val() == i,
            r is None <==> i > VARINT_MAX,
    {
        if i <= VARINT_MAX {
            Some(VarInt::from_int(i))
        } else {
            None
        }
    }

    /// Reads one variable-length integer from `buf` starting at `*pos`,
    /// advancing `*pos` past it. Fails exactly when the bytes at `*pos` are
    /// truncated or run past the five-byte limit.
    pub fn from_stream(buf: &[u8], pos: &mut usize) -> (r: Result<VarInt, ()>)
        requires
            *old(pos) <= buf@.len(),
        ensures
            match r {
                Ok(v) => {
                    &&& v.wf()
                    &&& spec_varint_parse(buf@.skip(*old(pos) as int), 5) == Some(
                        (v.spec_int_val() as int, (*final(pos) - *old(pos)) as nat),
                    )
                    &&& *old(pos) < *final(pos) <= buf@.len()
                },
                Err(_) => {
                    &&& spec_varint_parse(buf@.skip(*old(pos) as int), 5) is None
                    &&& *final(pos) == *old(pos)
                },
            },
    {
        match parse_varint_at(buf, *pos, 5) {
            Some((v, n)) => {
                proof {
                    lemma_varint_parse_bound(buf@.skip(*pos as int), 5);
                    lemma_pow128_mono(n as nat, 5);
                    assert(pow128(5) == 0x8_0000_0000) by {
                        reveal_with_fuel(pow128, 6);
                    }
                }
                let total: usize = buf.len();
                assert(*pos + n <= total);
                *pos = *pos + n;
                Ok(VarInt::from_int(v))
            },
            None => Err(()),
        }
    }

    /// Appends the used bytes of the encoding to `s`: the zero byte for
    /// zero, otherwise every byte up to the zero padding.
    pub fn write_to_stream(&self, s: &mut Vec<u8>)
        requires
            self.wf(),
        ensures
            final(s)@ == old(s)@ + spec_varint(self.spec_int_val()),
    {
        if self.int_val == 0 {
            s.push(0);
            assert(s@ =~= old(s)@ + spec_varint(0));
            return ;
        }
        let ghost enc = spec_varint_pos(self.int_val);
        proof {
            lemma_varint_pos_nonzero(self.int_val);
        }
        let mut i: usize = 0;
        while i < 5 && self.byte_arr[i] != 0
            invariant
                self.wf(),
                self.int_val != 0,
                enc == spec_varint_pos(self.int_val),
                0 <= i <= enc.len(),
                s@ == old(s)@ + enc.take(i as int),
                forall|j: int| 0 <= j < enc.len() ==> enc[j] != 0,
            decreases 5 - i,
        {
            s.push(self.byte_arr[i]);
            proof {
                assert(self.byte_arr@[i as int] == enc[i as int]);
                assert(s@ =~= old(s)@ + enc.take(i as int + 1));
            }
            i = i + 1;
        }
        proof {
            if i < enc.len() {
                assert(self.byte_arr@[i as int] == enc[i as int]);
                assert(false);
            }
            assert(enc.take(enc.len() as int) =~= enc);
        }
    }
}

} // verus!
