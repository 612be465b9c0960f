//! Small facts about masks and shifts that the other modules lean on.

use vstd::prelude::*;

verus! {

/// Facts about masks and shifts that hold of every value.
proof fn lemma_bit_bank()
    by (bit_vector)
    ensures
        forall|x: u32, m: u32| #[trigger] (x & m) <= m && (x & m) <= x,
        forall|x: u16, m: u16| #[trigger] (x & m) <= m && (x & m) <= x,
        forall|x: u8, m: u8| #[trigger] (x & m) <= m && (x & m) <= x,
        forall|x: u64, m: u64| #[trigger] (x & m) <= m && (x & m) <= x,
        forall|x: usize, m: usize| #[trigger] (x & m) <= m && (x & m) <= x,
        forall|x: u32, s: u32| #[trigger] (x >> s) <= x,
        forall|x: u16, s: u16| #[trigger] (x >> s) <= x,
        forall|x: u8| #[trigger] (x >> 4u8) <= 15,
        forall|x: u16| #[trigger] (x >> 12u16) <= 15,
        forall|x: u16, b: u16| #[trigger] ((x | b) & b) == b,
        forall|x: i32| -0x80_0000 <= #[trigger] (x >> 8u32) <= 0x80_0000,
        forall|x: usize| #[trigger] (x & !1usize) % 2 == 0 && (x & !1usize) <= x && x <= (x
            & !1usize) + 1,
        forall|x: u32| #[trigger] ((x as usize) & 0x1_ffffusize) == (x & 0x1_ffff) as usize,
        forall|x: u16| #[trigger] ((x & !0x8000u16) & 0x8000) == 0,
        forall|x: u16| #[trigger] ((x | 0x80u16) & 0x80) != 0,
        forall|v: u8|
            #![trigger ((v as u16) | ((v as u16) << 8u16))]
            (((v as u16) | ((v as u16) << 8u16)) as u8) == v && ((((v as u16) | ((v as u16)
                << 8u16)) >> 8u16) as u8) == v,
        forall|x: u16| #[trigger] (x >> 8u16) <= 0xff,
        forall|x: u32| #[trigger] (x >> 8u32) <= 0xff_ffff,
        forall|x: u32| #[trigger] (x & !1u32) <= x && x <= (x & !1u32) + 1,
        forall|v: u16|
            #![trigger (v >> 8u16) as u8]
            (((v as u8) as u16) | ((((v >> 8u16) as u8) as u16) << 8u16)) == v,
{
}

/// How the bitwise operators treat bit `i` of their operands: AND keeps a
/// bit set in both, OR one set in either, XOR one set in exactly one,
/// AND NOT one set in the first only, NOT one that was clear.
pub proof fn lemma_bitwise_bit(a: u32, b: u32, i: u32)
    by (bit_vector)
    requires
        i < 32,
    ensures
        (((a & b) >> i) & 1 == 1) == (((a >> i) & 1 == 1) && ((b >> i) & 1 == 1)),
        (((a | b) >> i) & 1 == 1) == (((a >> i) & 1 == 1) || ((b >> i) & 1 == 1)),
        (((a ^ b) >> i) & 1 == 1) == (((a >> i) & 1 == 1) != ((b >> i) & 1 == 1)),
        (((a & !b) >> i) & 1 == 1) == (((a >> i) & 1 == 1) && !((b >> i) & 1 == 1)),
        (((!b) >> i) & 1 == 1) == !((b >> i) & 1 == 1),
{
}

/// OR with a value whose bits are all already set changes nothing, and OR
/// with zero changes nothing.
pub proof fn lemma_or_absorbs(a: u32, b: u32)
    by (bit_vector)
    ensures
        a & b == b ==> a | b == a,
        a | 0 == a,
        a | a == a,
{
}

/// Clearing bit zero of an offset makes it even without moving it by more
/// than one.
pub proof fn lemma_clear_low_bit(x: usize)
    ensures
        (x & !1usize) % 2 == 0,
        (x & !1usize) <= x,
        x <= (x & !1usize) + 1,
{
    lemma_bit_bank();
}

/// The high byte of a halfword, and a word shifted down by a byte.
pub proof fn lemma_shift_bytes(h: u16, w: u32)
    ensures
        (h >> 8u16) <= 0xff,
        (w >> 8u32) <= 0xff_ffff,
        (w & !1u32) <= w,
        w <= (w & !1u32) + 1,
{
    lemma_bit_bank();
}

/// Masking commutes with widening to usize.
pub proof fn lemma_widened_mask(x: u32)
    ensures
        ((x as usize) & 0x1_ffffusize) == (x & 0x1_ffff) as usize,
{
    lemma_bit_bank();
}

/// Clearing the enable bit of a control halfword clears it; setting a bit
/// sets it.
pub proof fn lemma_control_bits(x: u16)
    ensures
        ((x & !0x8000u16) & 0x8000) == 0,
        ((x | 0x80u16) & 0x80) != 0,
{
    lemma_bit_bank();
}

/// A byte repeated into both halves of a halfword, and a halfword split
/// into its two bytes and joined again.
pub proof fn lemma_byte_pairs(v: u8, h: u16)
    ensures
        (((v as u16) | ((v as u16) << 8u16)) as u8) == v,
        ((((v as u16) | ((v as u16) << 8u16)) >> 8u16) as u8) == v,
        (((h as u8) as u16) | ((((h >> 8u16) as u8) as u16) << 8u16)) == h,
{
    lemma_bit_bank();
}

/// A value masked with `mask` is at most `mask`.
pub proof fn lemma_and_le_u32(x: u32, mask: u32)
    ensures
        x & mask <= mask,
        x & mask <= x,
{
    lemma_bit_bank();
}

/// A value masked with `mask` is at most `mask`.
pub proof fn lemma_and_le_u16(x: u16, mask: u16)
    ensures
        x & mask <= mask,
        x & mask <= x,
{
    lemma_bit_bank();
}

/// A value masked with `mask` is at most `mask`.
pub proof fn lemma_and_le_u8(x: u8, mask: u8)
    ensures
        x & mask <= mask,
        x & mask <= x,
{
    lemma_bit_bank();
}

/// A value masked with `mask` is at most `mask`.
pub proof fn lemma_and_le_u64(x: u64, mask: u64)
    ensures
        x & mask <= mask,
        x & mask <= x,
{
    lemma_bit_bank();
}

/// A value masked with `mask` is at most `mask`.
pub proof fn lemma_and_le_usize(x: usize, mask: usize)
    ensures
        x & mask <= mask,
        x & mask <= x,
{
    lemma_bit_bank();
}

/// Shifting right never makes a value larger.
pub proof fn lemma_shr_le_u16(x: u16, shift: u16)
    ensures
        x >> shift <= x,
{
    lemma_bit_bank();
}

/// The high nibble of a byte is at most 15.
pub proof fn lemma_high_nibble_u8(x: u8)
    ensures
        x >> 4u8 <= 15,
{
    lemma_bit_bank();
}

/// The top four bits of a halfword are at most 15.
pub proof fn lemma_top_nibble_u16(x: u16)
    ensures
        x >> 12u16 <= 15,
{
    lemma_bit_bank();
}

/// Setting a bit leaves it set.
pub proof fn lemma_or_sets_u16(x: u16, bit: u16)
    ensures
        (x | bit) & bit == bit,
{
    lemma_bit_bank();
}

/// An arithmetic shift right by eight keeps a bounded value bounded.
pub proof fn lemma_shr8_bound_i32(x: i32)
    ensures
        -0x80_0000 <= x >> 8u32 <= 0x80_0000,
{
    lemma_bit_bank();
}

} // verus!
