//! A restartable pseudo-random walk of the IPv4 space. The cursor `x` runs
//! from zero; each position is mapped through a fixed 32-bit mixing function
//! parameterized by a random `offset`, and reserved addresses are skipped.
//! Two iterators with the same `(offset, x)` produce identical suffixes.

use vstd::prelude::*;
use vstd::arithmetic::div_mod::{lemma_fundamental_div_mod, lemma_mod_multiples_basic,
    lemma_sub_mod_noop};
use vstd::arithmetic::power2::{lemma2_to64, lemma_pow2_pos, lemma_pow2_unfold, pow2};
use vstd::wrapping::u32_specs;
use rand::Rng;
use crate::ip::{is_reserved, spec_is_reserved};

verus! {

/// Lowest offset the random draw can produce.
pub const OFFSET_MIN: u32 = 2;

/// One past the highest offset the random draw can produce.
pub const OFFSET_MAX: u32 = 1000000;

/// The image of cursor `x` under the 32-bit mixing function with the given
/// `offset`: an LCG step, a multiplication by the offset, three xor-shifts,
/// and a final LCG step, all with wrapping arithmetic.
#[verifier::opaque]
pub open spec fn spec_permute(offset: u32, x: u32) -> u32 {
    let v1 = u32_specs::wrapping_mul(x, 1664525);
    let v2 = u32_specs::wrapping_add(v1, 1013904223);
    let v3 = u32_specs::wrapping_mul(v2, offset);
    let v4 = v3 ^ (v3 >> 12);
    let v5 = v4 ^ (v4 << 25);
    let v6 = v5 ^ (v5 >> 27);
    let v7 = u32_specs::wrapping_mul(v6, 1103515245);
    u32_specs::wrapping_add(v7, 12345)
}

/// Computes the mixing function.
pub fn permute(offset: u32, x: u32) -> (r: u32)
    ensures
        r == spec_permute(offset, x),
{
    proof {
        reveal(spec_permute);
    }
    let mut v: u32 = x.wrapping_mul(1664525);
    v = v.wrapping_add(1013904223);
    v = v.wrapping_mul(offset);
    v = v ^ (v >> 12);
    v = v ^ (v << 25);
    v = v ^ (v >> 27);
    v = v.wrapping_mul(1103515245);
    v = v.wrapping_add(12345);
    v
}

/// Wrapping multiplication agrees with plain multiplication truncated to 32
/// bits.
proof fn lemma_wrapping_mul_as(a: u32, c: u32)
    ensures
        u32_specs::wrapping_mul(a, c) == (a * c) as u32,
{
    assert(((a as nat * c as nat) % 0x1_0000_0000) as u32 == (a * c) as u32) by (bit_vector);
}

/// Wrapping addition agrees with plain addition truncated to 32 bits.
proof fn lemma_wrapping_add_as(a: u32, c: u32)
    ensures
        u32_specs::wrapping_add(a, c) == (a + c) as u32,
{
    assert(a + c <= u32::MAX ==> (a + c) as u32 == a + c);
    assert(a + c > u32::MAX ==> (a + c - 0x1_0000_0000) as u32 == (a + c) as u32) by (bit_vector);
}

/// The LCG step with the fixed odd multiplier 1664525 is injective.
proof fn lemma_lcg1_inj(a: u32, b: u32)
    by (bit_vector)
    requires
        ((a * 1664525 + 1013904223) as u32) == ((b * 1664525 + 1013904223) as u32),
    ensures
        a == b,
{
}

/// The final LCG step with the fixed odd multiplier 1103515245 is injective.
proof fn lemma_lcg2_inj(a: u32, b: u32)
    by (bit_vector)
    requires
        ((a * 1103515245 + 12345) as u32) == ((b * 1103515245 + 12345) as u32),
    ensures
        a == b,
{
}

/// An odd factor cancels: if `2^k` divides `d * o` with `o` odd and
/// `0 <= d < 2^k`, then `d` is zero.
proof fn lemma_odd_cancel(d: int, o: int, k: nat)
    requires
        0 <= d < pow2(k),
        o % 2 == 1,
        (d * o) % (pow2(k) as int) == 0,
    ensures
        d == 0,
    decreases k,
{
    if k == 0 {
        lemma2_to64();
    } else {
        let m = pow2(k) as int;
        let h = pow2((k - 1) as nat) as int;
        lemma_pow2_unfold(k);
        lemma_pow2_pos((k - 1) as nat);
        lemma_fundamental_div_mod(d * o, m);
        let q = (d * o) / m;
        assert(d * o == m * q);
        assert(m * q == 2 * (h * q)) by (nonlinear_arith)
            requires
                m == 2 * h,
        ;
        lemma_fundamental_div_mod(d, 2);
        lemma_fundamental_div_mod(o, 2);
        let dd = d / 2;
        let oo = o / 2;
        if d % 2 == 1 {
            assert(d * o == 2 * (2 * dd * oo + dd + oo) + 1) by (nonlinear_arith)
                requires
                    d == 2 * dd + 1 && o == 2 * oo + 1,
            ;
            assert(false);
        }
        let e = dd;
        assert(d == 2 * e);
        assert(d * o == 2 * (e * o)) by (nonlinear_arith)
            requires
                d == 2 * e,
        ;
        assert(e * o == h * q);
        lemma_mod_multiples_basic(q, h);
        assert(e * o == q * h) by (nonlinear_arith)
            requires
                e * o == h * q,
        ;
        lemma_odd_cancel(e, o, (k - 1) as nat);
    }
}

/// Multiplication by an odd factor modulo `2^32` is injective.
proof fn lemma_mul_odd_cancel(a: u32, b: u32, o: u32)
    requires
        o % 2 == 1,
        (a * o) % 0x1_0000_0000 == (b * o) % 0x1_0000_0000,
    ensures
        a == b,
{
    lemma2_to64();
    let m: int = 0x1_0000_0000;
    assert(pow2(32) == m);
    let (x, y) = if a >= b {
        (a, b)
    } else {
        (b, a)
    };
    let d: int = x - y;
    lemma_sub_mod_noop(x * o, y * o, m);
    assert((x * o - y * o) % m == 0);
    assert(d * o == x * o - y * o) by (nonlinear_arith)
        requires
            d == x - y,
    ;
    lemma_odd_cancel(d, o as int, 32);
}

/// Wrapping multiplication by any odd factor is injective.
proof fn lemma_mul_odd_inj(a: u32, b: u32, o: u32)
    requires
        o & 1 == 1,
        ((a * o) as u32) == ((b * o) as u32),
    ensures
        a == b,
{
    assert(o % 2 == 1) by (bit_vector)
        requires
            o & 1 == 1,
    ;
    assert((a * o) as u32 == (a * o) % 0x1_0000_0000) by (bit_vector);
    assert((b * o) as u32 == (b * o) % 0x1_0000_0000) by (bit_vector);
    lemma_mul_odd_cancel(a, b, o);
}

/// The three xor-shift steps are injective.
proof fn lemma_xorshift_inj(a: u32, b: u32)
    by (bit_vector)
    requires
        ({
            let a4 = a ^ (a >> 12);
            let a5 = a4 ^ (a4 << 25);
            let a6 = a5 ^ (a5 >> 27);
            let b4 = b ^ (b >> 12);
            let b5 = b4 ^ (b4 << 25);
            let b6 = b5 ^ (b5 >> 27);
            a6 == b6
        }),
    ensures
        a == b,
{
}

/// The mixing function is injective for every odd offset: distinct cursors
/// give distinct addresses, so a sweep with an odd offset repeats none.
pub proof fn lemma_permute_injective(offset: u32, a: u32, b: u32)
    requires
        offset % 2 == 1,
        spec_permute(offset, a) == spec_permute(offset, b),
    ensures
        a == b,
{
    reveal(spec_permute);
    let a1 = u32_specs::wrapping_mul(a, 1664525);
    let a2 = u32_specs::wrapping_add(a1, 1013904223);
    let a3 = u32_specs::wrapping_mul(a2, offset);
    let a4 = a3 ^ (a3 >> 12);
    let a5 = a4 ^ (a4 << 25);
    let a6 = a5 ^ (a5 >> 27);
    let a7 = u32_specs::wrapping_mul(a6, 1103515245);
    let b1 = u32_specs::wrapping_mul(b, 1664525);
    let b2 = u32_specs::wrapping_add(b1, 1013904223);
    let b3 = u32_specs::wrapping_mul(b2, offset);
    let b4 = b3 ^ (b3 >> 12);
    let b5 = b4 ^ (b4 << 25);
    let b6 = b5 ^ (b5 >> 27);
    let b7 = u32_specs::wrapping_mul(b6, 1103515245);
    lemma_wrapping_mul_as(a, 1664525);
    lemma_wrapping_add_as(a1, 1013904223);
    lemma_wrapping_mul_as(a2, offset);
    lemma_wrapping_mul_as(a6, 1103515245);
    lemma_wrapping_add_as(a7, 12345);
    lemma_wrapping_mul_as(b, 1664525);
    lemma_wrapping_add_as(b1, 1013904223);
    lemma_wrapping_mul_as(b2, offset);
    lemma_wrapping_mul_as(b6, 1103515245);
    lemma_wrapping_add_as(b7, 12345);
    assert((a1 + 1013904223) as u32 == (a * 1664525 + 1013904223) as u32) by (bit_vector)
        requires
            a1 == (a * 1664525) as u32,
    ;
    assert((b1 + 1013904223) as u32 == (b * 1664525 + 1013904223) as u32) by (bit_vector)
        requires
            b1 == (b * 1664525) as u32,
    ;
    assert((a7 + 12345) as u32 == (a6 * 1103515245 + 12345) as u32) by (bit_vector)
        requires
            a7 == (a6 * 1103515245) as u32,
    ;
    assert((b7 + 12345) as u32 == (b6 * 1103515245 + 12345) as u32) by (bit_vector)
        requires
            b7 == (b6 * 1103515245) as u32,
    ;
    lemma_lcg2_inj(a6, b6);
    lemma_xorshift_inj(a3, b3);
    assert(offset & 1 == 1) by (bit_vector)
        requires
            offset % 2 == 1,
    ;
    lemma_mul_odd_inj(a2, b2, offset);
    lemma_lcg1_inj(a, b);
}

/// The first cursor position at or after `x` whose image is not reserved,
/// if any position of the sweep remains.
pub open spec fn spec_next_valid(offset: u32, x: u32) -> Option<u32>
    decreases u32::MAX - x,
{
    if x == u32::MAX {
        None
    } else if !spec_is_reserved(spec_permute(offset, x)) {
        Some(x)
    } else {
        spec_next_valid(offset, (x + 1) as u32)
    }
}

/// Relies on rand's `thread_rng` and `Rng::gen_range`: a draw from a
/// non-empty range lies within it.
#[verifier::external_body]
fn random_offset() -> (r: u32)
    ensures
        OFFSET_MIN <= r < OFFSET_MAX,
{
    rand::thread_rng().gen_range(OFFSET_MIN..OFFSET_MAX)
}

/// The restartable pseudo-random address source.
pub struct IpChunkIterator {
    pub(crate) offset: u32,
    pub(crate) x: u32,
}

impl IpChunkIterator {
    /// The permutation parameter.
    pub closed spec fn spec_offset(&self) -> u32 {
        self.offset
    }

    /// The cursor: positions below it have been consumed.
    pub closed spec fn spec_x(&self) -> u32 {
        self.x
    }

    /// The offset stays within the range the random draw allows.
    pub open spec fn wf(&self) -> bool {
        OFFSET_MIN <= self.spec_offset() < OFFSET_MAX
    }

    /// Starts a fresh sweep with a random offset and the cursor at zero.
    pub fn new() -> (r: Self)
        ensures
            r.wf(),
            r.spec_x() == 0,
    {
        IpChunkIterator { offset: random_offset(), x: 0 }
    }

    /// Restores a sweep from its serialized fields.
    pub fn from_parts(offset: u32, x: u32) -> (r: Self)
        requires
            OFFSET_MIN <= offset < OFFSET_MAX,
        ensures
            r.wf(),
            r.spec_offset() == offset,
            r.spec_x() == x,
    {
        IpChunkIterator { offset, x }
    }

    /// The permutation parameter.
    pub fn offset(&self) -> (r: u32)
        ensures
            r == self.spec_offset(),
    {
        self.offset
    }

    /// The cursor.
    pub fn cursor(&self) -> (r: u32)
        ensures
            r == self.spec_x(),
    {
        self.x
    }

    /// Starts a new sweep: the cursor returns to zero and the offset is
    /// drawn afresh, adjusted so that it always differs from the old one.
    pub fn regenerate(&mut self)
        ensures
            final(self).wf(),
            final(self).spec_x() == 0,
            final(self).spec_offset() != old(self).spec_offset(),
    {
        self.x = 0;
        let mut o = random_offset();
        if o == self.offset {
            o = if o + 1 < OFFSET_MAX {
                o + 1
            } else {
                OFFSET_MIN
            };
        }
        self.offset = o;
    }

    /// Emits the next non-reserved address of the sweep, advancing the
    /// cursor past every reserved image it skipped. Returns nothing exactly
    /// when every remaining cursor position maps into the reserved ranges —
    /// in particular when the sweep is exhausted.
    pub fn next(&mut self) -> (r: Option<u32>)
        ensures
            final(self).spec_offset() == old(self).spec_offset(),
            match spec_next_valid(old(self).spec_offset(), old(self).spec_x()) {
                Some(idx) => {
                    &&& r == Some(spec_permute(old(self).spec_offset(), idx))
                    &&& !spec_is_reserved(spec_permute(old(self).spec_offset(), idx))
                    &&& final(self).spec_x() == idx + 1
                },
                None => r is None && final(self).spec_x() == u32::MAX,
            },
    {
        while self.x != u32::MAX
            invariant
                self.offset == old(self).offset,
                old(self).x <= self.x,
                spec_next_valid(old(self).spec_offset(), old(self).spec_x()) == spec_next_valid(
                    self.offset,
                    self.x,
                ),
            decreases u32::MAX - self.x,
        {
            let ip = permute(self.offset, self.x);
            self.x = self.x + 1;
            if !is_reserved(ip) {
                return Some(ip);
            }
        }
        None
    }
}

} // verus!
