//! Thumb state instruction execution.

use super::{
    add_flags, bit_of, condition_holds, lemma_bit_test, ror, ror_spec, shift, shift_spec, sub_flags,
    Cpu,
};
use super::arm::{
    count_registers, halfword_load_done, lemma_list_bits, lemma_register_count_bound, load_done,
    loaded_registers, register_count,
};
use crate::bits::lemma_and_le_u32;
use crate::bus::{read16_done, read32_done, read8_done, write16_done, write32_done, write8_done, Bus};
use vstd::prelude::*;

verus! {

/// What executing the THUMB instruction `op` does to the processor and the
/// bus, format by format.
pub open spec fn thumb_executed(a: &Cpu, ab: &Bus, op: u16, b: &Cpu, bb: &Bus) -> bool {
    &&& {
            let op = op as u32;
            &&& op >> 12u32 == 0xd && (op >> 8u32) & 0xf != 0xf && !((op >> 8u32) & 0xf != 0xe
                && condition_holds((op >> 8u32) & 0xf, a.n, a.z, a.c, a.v))
                ==> *b == *a && *bb == *ab
            &&& op >> 12u32 == 0xd && (op >> 8u32) & 0xf != 0xf && (op >> 8u32) & 0xf != 0xe
                && condition_holds((op >> 8u32) & 0xf, a.n, a.z, a.c, a.v)
                ==> b.r@ == a.r@.update(15, a.r[15].wrapping_add(short_offset(op)) & !1u32)
                && b.flush
            &&& op >> 12u32 == 0xe ==> b.r@ == a.r@.update(
                15,
                a.r[15].wrapping_add(long_offset(op)) & !1u32,
            ) && b.flush
            &&& op >> 12u32 == 0xf && op & 0x0800 == 0 ==> b.r@ == a.r@.update(
                14,
                a.r[15].wrapping_add(high_offset(op)),
            ) && *b == (Cpu { r: b.r, ..*a })
            &&& op >> 12u32 == 0xf && op & 0x0800 != 0 ==> b.r@ == a.r@.update(
                14,
                a.r[15].wrapping_sub(2) | 1,
            ).update(15, a.r[14].wrapping_add((op & 0x7ff) << 1u32) & !1u32)
                && b.flush
            &&& op >> 12u32 <= 1 && op & 0x1800 == 0x1800 ==> add_subtract_done(
                &*a,
                &*b,
                op,
            ) && *bb == *ab
            &&& op >> 12u32 <= 1 && op & 0x1800 != 0x1800 ==> shift_immediate_done(
                &*a,
                &*b,
                op,
            ) && *bb == *ab
            &&& (op >> 12u32 == 2 || op >> 12u32 == 3) ==> immediate_done(
                &*a,
                &*b,
                op,
            ) && *bb == *ab
            &&& op >> 12u32 == 4 && op & 0x0800 == 0 && op & 0x0400 != 0 ==> high_register_done(
                &*a,
                &*b,
                op,
            ) && *bb == *ab
            &&& op >> 12u32 == 4 && op & 0x0800 == 0 && op & 0x0400 == 0 ==> alu_done(
                &*a,
                &*b,
                op,
            )
                && *bb == *ab
            &&& op >> 12u32 == 0xa ==> *b == (Cpu { r: b.r, ..*a })
                && b.r@ == a.r@.update(
                low_reg(op, 8),
                (if op & 0x0800 != 0 {
                    a.r[13]
                } else {
                    a.r[15] & !2u32
                }).wrapping_add((op & 0xff) << 2u32),
            ) && *bb == *ab
            &&& op >> 12u32 == 4 && op & 0x0800 != 0 ==> read32_done(
                &*ab,
                (a.r[15] & !2u32).wrapping_add((op & 0xff) << 2u32),
                b.r[low_reg(op, 8)],
                &*bb,
            ) && b.r@ == a.r@.update(low_reg(op, 8), b.r[low_reg(op, 8)])
                && *b == (Cpu { r: b.r, ..*a })
            &&& (op >> 12u32 == 6 || op >> 12u32 == 7) ==> immediate_offset_done(
                &*a,
                &*b,
                &*ab,
                &*bb,
                op,
            )
            &&& op >> 12u32 == 8 ==> halfword_done(&*a, &*b, &*ab, &*bb, op)
            &&& op >> 12u32 == 5 ==> register_offset_done(
                &*a,
                &*b,
                &*ab,
                &*bb,
                op,
            )
            &&& op >> 12u32 == 9 ==> stack_relative_done(
                &*a,
                &*b,
                &*ab,
                &*bb,
                op,
            )
            &&& op >> 12u32 == 0xb && op & 0x0f00 == 0 ==> *b == (Cpu {
                r: b.r,
                ..*a
            }) && b.r@ == a.r@.update(
                13,
                if op & 0x80 != 0 {
                    a.r[13].wrapping_sub((op & 0x7f) << 2u32)
                } else {
                    a.r[13].wrapping_add((op & 0x7f) << 2u32)
                },
            ) && *bb == *ab
        }
}


/// A three bit register number at `position` of a Thumb instruction.
pub open spec fn low_reg(op: u32, position: u32) -> int {
    ((op >> position) & 7) as int
}

fn low_field(op: u32, position: u32) -> (index: usize)
    requires
        position < 32,
    ensures
        index == low_reg(op, position),
        index < 8,
{
    proof {
        lemma_and_le_u32(op >> position, 7);
    }
    ((op >> position) & 7) as usize
}

/// The value a Thumb ALU operation writes (or would write, for the
/// compares) from rd and rs.
pub open spec fn thumb_alu_value(code: u32, lhs: u32, rhs: u32, carry: bool) -> u32 {
    if code == 0 || code == 8 {
        lhs & rhs
    } else if code == 1 {
        lhs ^ rhs
    } else if code == 2 {
        shift_spec(0, lhs, rhs & 0xff, false, carry).0
    } else if code == 3 {
        shift_spec(1, lhs, rhs & 0xff, false, carry).0
    } else if code == 4 {
        shift_spec(2, lhs, rhs & 0xff, false, carry).0
    } else if code == 5 {
        add_flags(lhs, rhs, carry).0
    } else if code == 6 {
        sub_flags(lhs, rhs, carry).0
    } else if code == 7 {
        shift_spec(3, lhs, rhs & 0xff, false, carry).0
    } else if code == 9 {
        sub_flags(0, rhs, true).0
    } else if code == 10 {
        sub_flags(lhs, rhs, true).0
    } else if code == 11 {
        add_flags(lhs, rhs, false).0
    } else if code == 12 {
        lhs | rhs
    } else if code == 13 {
        ((lhs as int * rhs as int) % 0x1_0000_0000) as u32
    } else if code == 14 {
        lhs & !rhs
    } else {
        !rhs
    }
}

/// The Thumb logical ALU operations act bit by bit: AND and TST keep a bit
/// set in both registers, EOR one set in exactly one, ORR one set in
/// either, BIC one set in Rd and clear in Rs, MVN one clear in Rs.
pub proof fn law_thumb_logical_operations_act_bit_by_bit(lhs: u32, rhs: u32, carry: bool, i: u32)
    requires
        i < 32,
    ensures
        bit_of(thumb_alu_value(0, lhs, rhs, carry), i) == (bit_of(lhs, i) && bit_of(rhs, i)),
        bit_of(thumb_alu_value(8, lhs, rhs, carry), i) == (bit_of(lhs, i) && bit_of(rhs, i)),
        bit_of(thumb_alu_value(1, lhs, rhs, carry), i) == (bit_of(lhs, i) != bit_of(rhs, i)),
        bit_of(thumb_alu_value(12, lhs, rhs, carry), i) == (bit_of(lhs, i) || bit_of(rhs, i)),
        bit_of(thumb_alu_value(14, lhs, rhs, carry), i) == (bit_of(lhs, i) && !bit_of(rhs, i)),
        bit_of(thumb_alu_value(15, lhs, rhs, carry), i) == !bit_of(rhs, i),
{
    crate::bits::lemma_bitwise_bit(lhs, rhs, i);
}

/// Thumb ORR only sets bits: ORR of a register with a value it already
/// holds, with zero, or with itself leaves it unchanged.
pub proof fn law_thumb_orr_only_sets_bits(lhs: u32, rhs: u32, carry: bool)
    ensures
        lhs & rhs == rhs ==> thumb_alu_value(12, lhs, rhs, carry) == lhs,
        thumb_alu_value(12, lhs, 0, carry) == lhs,
        thumb_alu_value(12, lhs, lhs, carry) == lhs,
{
    crate::bits::lemma_or_absorbs(lhs, rhs);
}

/// The Thumb arithmetic operations agree as arithmetic modulo 2^32 does:
/// NEG of a value added back to it is zero, CMP computes SUB, CMN computes
/// ADD, SBC with carry subtracts, ADC without carry adds, and MUL is
/// commutative with 1 as identity and 0 as zero.
pub proof fn law_thumb_arithmetic_operations_agree(lhs: u32, rhs: u32, carry: bool)
    ensures
        thumb_alu_value(5, thumb_alu_value(10, lhs, rhs, carry), rhs, false) == lhs,
        thumb_alu_value(11, thumb_alu_value(9, lhs, rhs, carry), rhs, carry) == 0,
        thumb_alu_value(6, lhs, rhs, true) == thumb_alu_value(10, lhs, rhs, carry),
        thumb_alu_value(5, lhs, rhs, false) == thumb_alu_value(11, lhs, rhs, carry),
        thumb_alu_value(13, lhs, rhs, carry) == thumb_alu_value(13, rhs, lhs, carry),
        thumb_alu_value(13, lhs, 1, carry) == lhs,
        thumb_alu_value(13, lhs, 0, carry) == 0,
{
    assert(lhs as int * rhs as int == rhs as int * lhs as int) by (nonlinear_arith);
}

/// A Thumb conditional branch offset: eight bits in halfwords, signed.
pub open spec fn short_offset(op: u32) -> u32 {
    (((op & 0xff) as u8 as i8 as i32) << 1u32) as u32
}

/// An unconditional Thumb branch offset: eleven bits in halfwords, signed.
pub open spec fn long_offset(op: u32) -> u32 {
    ((((op & 0x7ff) << 21u32) as i32) >> 20u32) as u32
}

/// The high half of a long branch: eleven bits shifted up by twelve.
pub open spec fn high_offset(op: u32) -> u32 {
    ((((op & 0x7ff) << 21u32) as i32) >> 9u32) as u32
}

/// LSL, LSR or ASR by an immediate, with the shifter carry kept.
pub open spec fn shift_immediate_done(a: &Cpu, b: &Cpu, op: u32) -> bool {
    let (result, carry) = shift_spec(
        (op >> 11u32) & 3,
        a.r[low_reg(op, 3)],
        (op >> 6u32) & 0x1f,
        true,
        a.c,
    );
    &&& b.r@ == a.r@.update(low_reg(op, 0), result)
    &&& *b == (Cpu {
        r: b.r,
        n: result >= 0x8000_0000,
        z: result == 0,
        c: carry,
        ..*a
    })
}

/// ADD or SUB of a register or a three bit immediate, flags set.
pub open spec fn add_subtract_done(a: &Cpu, b: &Cpu, op: u32) -> bool {
    let operand = if op & 0x0400 != 0 {
        (op >> 6u32) & 7
    } else {
        a.r[low_reg(op, 6)]
    };
    let lhs = a.r[low_reg(op, 3)];
    let (result, carry, overflow) = if op & 0x0200 != 0 {
        sub_flags(lhs, operand, true)
    } else {
        add_flags(lhs, operand, false)
    };
    &&& b.r@ == a.r@.update(low_reg(op, 0), result)
    &&& *b == (Cpu {
        r: b.r,
        n: result >= 0x8000_0000,
        z: result == 0,
        c: carry,
        v: overflow,
        ..*a
    })
}

/// MOV, CMP, ADD or SUB with an eight bit immediate, flags set.
pub open spec fn immediate_done(a: &Cpu, b: &Cpu, op: u32) -> bool {
    let rd = low_reg(op, 8);
    let value = op & 0xff;
    let lhs = a.r[rd];
    let code = (op >> 11u32) & 3;
    &&& code == 0 ==> *b == (Cpu {
        r: b.r,
        n: value >= 0x8000_0000,
        z: value == 0,
        ..*a
    }) && b.r@ == a.r@.update(rd, value)
    &&& code == 1 ==> *b == (Cpu {
        n: sub_flags(lhs, value, true).0 >= 0x8000_0000,
        z: sub_flags(lhs, value, true).0 == 0,
        c: sub_flags(lhs, value, true).1,
        v: sub_flags(lhs, value, true).2,
        ..*a
    })
    &&& code == 2 ==> *b == (Cpu {
        r: b.r,
        n: add_flags(lhs, value, false).0 >= 0x8000_0000,
        z: add_flags(lhs, value, false).0 == 0,
        c: add_flags(lhs, value, false).1,
        v: add_flags(lhs, value, false).2,
        ..*a
    }) && b.r@ == a.r@.update(rd, add_flags(lhs, value, false).0)
    &&& code == 3 ==> *b == (Cpu {
        r: b.r,
        n: sub_flags(lhs, value, true).0 >= 0x8000_0000,
        z: sub_flags(lhs, value, true).0 == 0,
        c: sub_flags(lhs, value, true).1,
        v: sub_flags(lhs, value, true).2,
        ..*a
    }) && b.r@ == a.r@.update(rd, sub_flags(lhs, value, true).0)
}

/// One of the sixteen register-to-register ALU operations.
pub open spec fn alu_done(a: &Cpu, b: &Cpu, op: u32) -> bool {
    let rd = low_reg(op, 0);
    let code = (op >> 6u32) & 0xf;
    let lhs = a.r[rd];
    let rhs = a.r[low_reg(op, 3)];
    let result = thumb_alu_value(code, lhs, rhs, a.c);
    &&& code == 8 || code == 10 || code == 11 ==> b.r == a.r
    &&& !(code == 8 || code == 10 || code == 11) ==> b.r@ == a.r@.update(rd, result)
    &&& b.n == (result >= 0x8000_0000)
    &&& b.z == (result == 0)
    &&& (code == 0 || code == 1 || code == 8 || code >= 12) ==> b.c == a.c && b.v == a.v
    &&& (code == 2 || code == 3 || code == 4 || code == 7) ==> b.c
        == shift_spec(
        if code == 2 {
            0
        } else if code == 3 {
            1
        } else if code == 4 {
            2
        } else {
            3
        },
        lhs,
        rhs & 0xff,
        false,
        a.c,
    ).1 && b.v == a.v
    &&& code == 5 ==> b.c == add_flags(lhs, rhs, a.c).1 && b.v == add_flags(lhs, rhs, a.c).2
    &&& code == 6 ==> b.c == sub_flags(lhs, rhs, a.c).1 && b.v == sub_flags(lhs, rhs, a.c).2
    &&& code == 9 ==> b.c == sub_flags(0, rhs, true).1 && b.v
        == sub_flags(0, rhs, true).2
    &&& code == 10 ==> b.c == sub_flags(lhs, rhs, true).1 && b.v
        == sub_flags(lhs, rhs, true).2
    &&& code == 11 ==> b.c == add_flags(lhs, rhs, false).1 && b.v
        == add_flags(lhs, rhs, false).2
    &&& *b == (Cpu {
        r: b.r,
        n: b.n,
        z: b.z,
        c: b.c,
        v: b.v,
        ..*a
    })
}

/// ADD, CMP, MOV or BX on the high registers.
pub open spec fn high_register_done(a: &Cpu, b: &Cpu, op: u32) -> bool {
    let rd = ((op & 7) | ((op >> 4u32) & 8)) as int;
    let rs = ((op >> 3u32) & 0xf) as int;
    let source = if rs == 15 {
        a.r[15] & !1u32
    } else {
        a.r[rs]
    };
    let code = (op >> 8u32) & 3;
    &&& code == 0 && rd != 15 ==> *b == (Cpu { r: b.r, ..*a })
        && b.r@ == a.r@.update(rd, a.r[rd].wrapping_add(source))
    &&& code == 0 && rd == 15 ==> b.r@ == a.r@.update(
        15,
        a.r[15].wrapping_add(source) & !1u32,
    ) && b.flush
    &&& code == 1 ==> *b == (Cpu {
        n: sub_flags(a.r[rd], source, true).0 >= 0x8000_0000,
        z: sub_flags(a.r[rd], source, true).0 == 0,
        c: sub_flags(a.r[rd], source, true).1,
        v: sub_flags(a.r[rd], source, true).2,
        ..*a
    })
    &&& code == 2 && rd != 15 ==> *b == (Cpu { r: b.r, ..*a })
        && b.r@ == a.r@.update(rd, source)
    &&& code == 2 && rd == 15 ==> b.r@ == a.r@.update(15, source & !1u32)
        && b.flush
    &&& code == 3 ==> b.thumb == bit_of(source, 0) && b.flush
}

/// A word loaded into `rd`: the word the bus read at `address`, rotated so
/// that the addressed byte comes lowest; nothing else in the processor
/// changes.
pub open spec fn word_loaded(a: &Cpu, b: &Cpu, bus: &Bus, after: &Bus, rd: int, address: u32) -> bool {
    &&& exists|word: u32|
        #[trigger] read32_done(bus, address, word, after) && b.r@ == a.r@.update(
            rd,
            ror_spec(word, ((address & 3) * 8) as u32),
        )
    &&& *b == (Cpu { r: b.r, ..*a })
}

/// LDR, STR, LDRB or STRB with a five bit immediate offset from a base
/// register (scaled by four for words).
pub open spec fn immediate_offset_done(a: &Cpu, b: &Cpu, bus: &Bus, after: &Bus, op: u32) -> bool {
    let rd = low_reg(op, 0);
    let byte = op & 0x1000 != 0;
    let offset = if byte {
        (op >> 6u32) & 0x1f
    } else {
        ((op >> 6u32) & 0x1f) << 2u32
    };
    let address = a.r[low_reg(op, 3)].wrapping_add(offset);
    &&& op & 0x0800 != 0 && byte ==> b.r[rd] < 0x100 && read8_done(bus, address, b.r[rd] as u8, after)
        && b.r@ == a.r@.update(rd, b.r[rd]) && *b == (Cpu { r: b.r, ..*a })
    &&& op & 0x0800 != 0 && !byte ==> word_loaded(a, b, bus, after, rd, address)
    &&& op & 0x0800 == 0 && byte ==> write8_done(bus, address, a.r[rd] as u8, after) && *b == *a
    &&& op & 0x0800 == 0 && !byte ==> write32_done(bus, address, a.r[rd], after) && *b == *a
}

/// LDRH or STRH with a five bit immediate offset in halfwords; a load from
/// an odd address comes back rotated by a byte.
pub open spec fn halfword_done(a: &Cpu, b: &Cpu, bus: &Bus, after: &Bus, op: u32) -> bool {
    let rd = low_reg(op, 0);
    let address = a.r[low_reg(op, 3)].wrapping_add(((op >> 6u32) & 0x1f) << 1u32);
    &&& op & 0x0800 != 0 ==> (exists|half: u16|
        #[trigger] read16_done(bus, address, half, after) && b.r@ == a.r@.update(
            rd,
            if address & 1 != 0 {
                ror_spec(half as u32, 8)
            } else {
                half as u32
            },
        )) && *b == (Cpu { r: b.r, ..*a })
    &&& op & 0x0800 == 0 ==> write16_done(bus, address, a.r[rd] as u16, after) && *b == *a
}

/// LDR or STR of a word at the stack pointer plus an eight bit offset in
/// words.
pub open spec fn stack_relative_done(a: &Cpu, b: &Cpu, bus: &Bus, after: &Bus, op: u32) -> bool {
    let rd = low_reg(op, 8);
    let address = a.r[13].wrapping_add((op & 0xff) << 2u32);
    &&& op & 0x0800 != 0 ==> word_loaded(a, b, bus, after, rd, address)
    &&& op & 0x0800 == 0 ==> write32_done(bus, address, a.r[rd], after) && *b == *a
}

/// A load or store at the sum of two registers: STR, STRB, LDR or LDRB,
/// then STRH, LDRSB, LDRH or LDRSH.
pub open spec fn register_offset_done(a: &Cpu, b: &Cpu, bus: &Bus, after: &Bus, op: u32) -> bool {
    let rd = low_reg(op, 0);
    let address = a.r[low_reg(op, 3)].wrapping_add(a.r[low_reg(op, 6)]);
    let code = (op >> 10u32) & 3;
    if op & 0x0200 == 0 {
        if code == 0 {
            write32_done(bus, address, a.r[rd], after) && *b == *a
        } else if code == 1 {
            write8_done(bus, address, a.r[rd] as u8, after) && *b == *a
        } else {
            load_done(b.r@, bus, after, code == 3, address, a.r@, rd) && *b == (Cpu {
                r: b.r,
                ..*a
            })
        }
    } else if code == 0 {
        write16_done(bus, address, a.r[rd] as u16, after) && *b == *a
    } else {
        let kind: u32 = if code == 1 {
            2
        } else if code == 2 {
            1
        } else {
            3
        };
        halfword_load_done(b.r@, bus, after, kind, address, a.r@, rd) && *b == (Cpu { r: b.r, ..*a })
    }
}

impl Cpu {
    pub(super) fn execute_thumb(&mut self, bus: &mut Bus, op: u16)
        requires
            old(bus).wf(),
        ensures
            final(bus).wf(),
            ({
                let op = op as u32;
                &&& op >> 12u32 == 0xd && (op >> 8u32) & 0xf != 0xf && !((op >> 8u32) & 0xf != 0xe
                    && condition_holds((op >> 8u32) & 0xf, old(self).n, old(self).z, old(self).c, old(self).v))
                    ==> *final(self) == *old(self) && *final(bus) == *old(bus)
                &&& op >> 12u32 == 0xd && (op >> 8u32) & 0xf != 0xf && (op >> 8u32) & 0xf != 0xe
                    && condition_holds((op >> 8u32) & 0xf, old(self).n, old(self).z, old(self).c, old(self).v)
                    ==> final(self).r@ == old(self).r@.update(15, old(self).r[15].wrapping_add(short_offset(op)) & !1u32)
                    && final(self).flush
                &&& op >> 12u32 == 0xe ==> final(self).r@ == old(self).r@.update(
                    15,
                    old(self).r[15].wrapping_add(long_offset(op)) & !1u32,
                ) && final(self).flush
                &&& op >> 12u32 == 0xf && op & 0x0800 == 0 ==> final(self).r@ == old(self).r@.update(
                    14,
                    old(self).r[15].wrapping_add(high_offset(op)),
                ) && *final(self) == (Cpu { r: final(self).r, ..*old(self) })
                &&& op >> 12u32 == 0xf && op & 0x0800 != 0 ==> final(self).r@ == old(self).r@.update(
                    14,
                    old(self).r[15].wrapping_sub(2) | 1,
                ).update(15, old(self).r[14].wrapping_add((op & 0x7ff) << 1u32) & !1u32)
                    && final(self).flush
                &&& op >> 12u32 <= 1 && op & 0x1800 == 0x1800 ==> add_subtract_done(
                    &*old(self),
                    &*final(self),
                    op,
                ) && *final(bus) == *old(bus)
                &&& op >> 12u32 <= 1 && op & 0x1800 != 0x1800 ==> shift_immediate_done(
                    &*old(self),
                    &*final(self),
                    op,
                ) && *final(bus) == *old(bus)
                &&& (op >> 12u32 == 2 || op >> 12u32 == 3) ==> immediate_done(
                    &*old(self),
                    &*final(self),
                    op,
                ) && *final(bus) == *old(bus)
                &&& op >> 12u32 == 4 && op & 0x0800 == 0 && op & 0x0400 != 0 ==> high_register_done(
                    &*old(self),
                    &*final(self),
                    op,
                ) && *final(bus) == *old(bus)
                &&& op >> 12u32 == 4 && op & 0x0800 == 0 && op & 0x0400 == 0 ==> alu_done(
                    &*old(self),
                    &*final(self),
                    op,
                )
                    && *final(bus) == *old(bus)
                &&& op >> 12u32 == 0xa ==> *final(self) == (Cpu { r: final(self).r, ..*old(self) })
                    && final(self).r@ == old(self).r@.update(
                    low_reg(op, 8),
                    (if op & 0x0800 != 0 {
                        old(self).r[13]
                    } else {
                        old(self).r[15] & !2u32
                    }).wrapping_add((op & 0xff) << 2u32),
                ) && *final(bus) == *old(bus)
                &&& op >> 12u32 == 4 && op & 0x0800 != 0 ==> read32_done(
                    &*old(bus),
                    (old(self).r[15] & !2u32).wrapping_add((op & 0xff) << 2u32),
                    final(self).r[low_reg(op, 8)],
                    &*final(bus),
                ) && final(self).r@ == old(self).r@.update(low_reg(op, 8), final(self).r[low_reg(op, 8)])
                    && *final(self) == (Cpu { r: final(self).r, ..*old(self) })
                &&& (op >> 12u32 == 6 || op >> 12u32 == 7) ==> immediate_offset_done(
                    &*old(self),
                    &*final(self),
                    &*old(bus),
                    &*final(bus),
                    op,
                )
                &&& op >> 12u32 == 8 ==> halfword_done(&*old(self), &*final(self), &*old(bus), &*final(bus), op)
                &&& op >> 12u32 == 5 ==> register_offset_done(
                    &*old(self),
                    &*final(self),
                    &*old(bus),
                    &*final(bus),
                    op,
                )
                &&& op >> 12u32 == 9 ==> stack_relative_done(
                    &*old(self),
                    &*final(self),
                    &*old(bus),
                    &*final(bus),
                    op,
                )
                &&& op >> 12u32 == 0xb && op & 0x0f00 == 0 ==> *final(self) == (Cpu {
                    r: final(self).r,
                    ..*old(self)
                }) && final(self).r@ == old(self).r@.update(
                    13,
                    if op & 0x80 != 0 {
                        old(self).r[13].wrapping_sub((op & 0x7f) << 2u32)
                    } else {
                        old(self).r[13].wrapping_add((op & 0x7f) << 2u32)
                    },
                ) && *final(bus) == *old(bus)
            }),
            thumb_executed(&*old(self), &*old(bus), op, &*final(self), &*final(bus)),
    {
        let op = op as u32;
        let group = op >> 12u32;
        if group == 0 || group == 1 {
            if op & 0x1800 == 0x1800 {
                self.thumb_add_subtract(op);
            } else {
                self.thumb_shift_immediate(op);
            }
        } else if group == 2 || group == 3 {
            self.thumb_immediate(op);
        } else if group == 4 {
            if op & 0x0800 != 0 {
                // LDR rd, [pc, #imm]
                let rd = low_field(op, 8);
                let address = (self.r[15] & !2u32).wrapping_add((op & 0xff) << 2u32);
                let value = bus.read32(address);
                self.r[rd] = value;
            } else if op & 0x0400 != 0 {
                self.thumb_high_register(op);
            } else {
                self.thumb_alu(op);
            }
        } else if group == 5 {
            self.thumb_register_offset(bus, op);
        } else if group == 6 || group == 7 {
            // Word or byte with a 5 bit immediate offset.
            let rd = low_field(op, 0);
            let rb = low_field(op, 3);
            let byte = op & 0x1000 != 0;
            let load = op & 0x0800 != 0;
            proof {
                lemma_and_le_u32(op >> 6u32, 0x1f);
            }
            let offset = if byte {
                (op >> 6u32) & 0x1f
            } else {
                ((op >> 6u32) & 0x1f) << 2u32
            };
            let address = self.r[rb].wrapping_add(offset);
            if load && byte {
                let value = bus.read8(address) as u32;
                self.r[rd] = value;
            } else if load {
                let word = bus.read32(address);
                proof {
                    lemma_and_le_u32(address, 3);
                }
                self.r[rd] = ror(word, (address & 3) * 8);
            } else if byte {
                bus.write8(address, self.r[rd] as u8);
            } else {
                bus.write32(address, self.r[rd]);
            }
        } else if group == 8 {
            let rd = low_field(op, 0);
            let rb = low_field(op, 3);
            proof {
                lemma_and_le_u32(op >> 6u32, 0x1f);
            }
            let address = self.r[rb].wrapping_add(((op >> 6u32) & 0x1f) << 1u32);
            if op & 0x0800 != 0 {
                let half = bus.read16(address);
                let value = half as u32;
                self.r[rd] = if address & 1 != 0 {
                    ror(value, 8)
                } else {
                    value
                };
                assert(self.r@ =~= old(self).r@.update(
                    rd as int,
                    if address & 1 != 0 {
                        ror_spec(half as u32, 8)
                    } else {
                        half as u32
                    },
                ));
                assert(read16_done(&*old(bus), address, half, &*bus));
                assert(old(self).r[low_reg(op, 3)].wrapping_add(((op >> 6u32) & 0x1f) << 1u32) == address);
                assert(low_reg(op, 0) == rd);
                assert(halfword_done(&*old(self), &*self, &*old(bus), &*bus, op));
            } else {
                bus.write16(address, self.r[rd] as u16);
            }
        } else if group == 9 {
            let rd = low_field(op, 8);
            proof {
                lemma_and_le_u32(op, 0xff);
            }
            let address = self.r[13].wrapping_add((op & 0xff) << 2u32);
            if op & 0x0800 != 0 {
                let word = bus.read32(address);
                proof {
                    lemma_and_le_u32(address, 3);
                }
                self.r[rd] = ror(word, (address & 3) * 8);
            } else {
                bus.write32(address, self.r[rd]);
            }
        } else if group == 0xa {
            let rd = low_field(op, 8);
            let base = if op & 0x0800 != 0 {
                self.r[13]
            } else {
                self.r[15] & !2u32
            };
            proof {
                lemma_and_le_u32(op, 0xff);
            }
            self.r[rd] = base.wrapping_add((op & 0xff) << 2u32);
        } else if group == 0xb {
            if op & 0x0f00 == 0x0000 {
                proof {
                    lemma_and_le_u32(op, 0x7f);
                }
                let amount = (op & 0x7f) << 2u32;
                self.r[13] = if op & 0x80 != 0 {
                    self.r[13].wrapping_sub(amount)
                } else {
                    self.r[13].wrapping_add(amount)
                };
            } else if op & 0x0600 == 0x0400 {
                self.thumb_push_pop(bus, op);
            }
        } else if group == 0xc {
            self.thumb_block_transfer(bus, op);
        } else if group == 0xd {
            let condition = (op >> 8u32) & 0xf;
            if condition == 0xf {
                self.software_interrupt(bus, (op & 0xff) as u8);
            } else if condition != 0xe && self.check_condition(condition) {
                let offset = (((op & 0xff) as u8 as i8 as i32) << 1u32) as u32;
                let target = self.r[15].wrapping_add(offset);
                self.set_pc(target & !1u32);
            }
        } else if group == 0xe {
            let offset = ((((op & 0x7ff) << 21u32) as i32) >> 20u32) as u32;
            let target = self.r[15].wrapping_add(offset);
            self.set_pc(target & !1u32);
        } else {
            if op & 0x0800 == 0 {
                // First half: bank the high part of the offset in lr.
                let offset = ((((op & 0x7ff) << 21u32) as i32) >> 9u32) as u32;
                self.r[14] = self.r[15].wrapping_add(offset);
            } else {
                let return_address = self.r[15].wrapping_sub(2) | 1;
                proof {
                    lemma_and_le_u32(op, 0x7ff);
                }
                let target = self.r[14].wrapping_add((op & 0x7ff) << 1u32);
                self.r[14] = return_address;
                self.set_pc(target & !1u32);
            }
        }
    }

    /// LSL, LSR and ASR by an immediate; the shifter's carry comes out.
    fn thumb_shift_immediate(&mut self, op: u32)
        ensures
            shift_immediate_done(&*old(self), &*final(self), op),
    {
        let rd = low_field(op, 0);
        let rs = low_field(op, 3);
        let amount = (op >> 6u32) & 0x1f;
        let kind = (op >> 11u32) & 3;
        let mut carry = self.c;
        let result = shift(kind, self.r[rs], amount, true, &mut carry);
        self.c = carry;
        self.r[rd] = result;
        self.set_nz(result);
    }

    /// ADD and SUB with a register or a three bit immediate.
    fn thumb_add_subtract(&mut self, op: u32)
        ensures
            add_subtract_done(&*old(self), &*final(self), op),
    {
        let rd = low_field(op, 0);
        let rs = low_field(op, 3);
        let operand = if op & 0x0400 != 0 {
            (op >> 6u32) & 7
        } else {
            self.r[low_field(op, 6)]
        };
        let lhs = self.r[rs];
        let result = if op & 0x0200 != 0 {
            self.sub_with_flags(lhs, operand, true)
        } else {
            self.add_with_flags(lhs, operand, false)
        };
        self.r[rd] = result;
    }

    /// MOV, CMP, ADD and SUB with an eight bit immediate.
    fn thumb_immediate(&mut self, op: u32)
        ensures
            immediate_done(&*old(self), &*final(self), op),
    {
        let rd = low_field(op, 8);
        let value = op & 0xff;
        let code = (op >> 11u32) & 3;
        let lhs = self.r[rd];
        if code == 0 {
            self.r[rd] = value;
            self.set_nz(value);
        } else if code == 1 {
            self.sub_with_flags(lhs, value, true);
        } else if code == 2 {
            let result = self.add_with_flags(lhs, value, false);
            self.r[rd] = result;
        } else {
            let result = self.sub_with_flags(lhs, value, true);
            self.r[rd] = result;
        }
    }

    /// The sixteen register-to-register operations.
    #[verifier::rlimit(50)]
    fn thumb_alu(&mut self, op: u32)
        ensures
            alu_done(&*old(self), &*final(self), op),
    {
        let rd = low_field(op, 0);
        let rs = low_field(op, 3);
        let lhs = self.r[rd];
        let rhs = self.r[rs];
        let mut carry = self.c;
        let code = (op >> 6u32) & 0xf;
        if code == 0 {
            let result = lhs & rhs;
            self.r[rd] = result;
            self.set_nz(result);
        } else if code == 1 {
            let result = lhs ^ rhs;
            self.r[rd] = result;
            self.set_nz(result);
        } else if code == 2 || code == 3 || code == 4 || code == 7 {
            let kind: u32 = if code == 2 {
                0
            } else if code == 3 {
                1
            } else if code == 4 {
                2
            } else {
                3
            };
            let result = shift(kind, lhs, rhs & 0xff, false, &mut carry);
            self.c = carry;
            self.r[rd] = result;
            self.set_nz(result);
        } else if code == 5 {
            let carry_in = self.c;
            let result = self.add_with_flags(lhs, rhs, carry_in);
            self.r[rd] = result;
        } else if code == 6 {
            let carry_in = self.c;
            let result = self.sub_with_flags(lhs, rhs, carry_in);
            self.r[rd] = result;
        } else if code == 8 {
            self.set_nz(lhs & rhs);
        } else if code == 9 {
            let result = self.sub_with_flags(0, rhs, true);
            self.r[rd] = result;
        } else if code == 10 {
            self.sub_with_flags(lhs, rhs, true);
        } else if code == 11 {
            self.add_with_flags(lhs, rhs, false);
        } else if code == 12 {
            let result = lhs | rhs;
            self.r[rd] = result;
            self.set_nz(result);
        } else if code == 13 {
            let result = lhs.wrapping_mul(rhs);
            self.r[rd] = result;
            self.set_nz(result);
        } else if code == 14 {
            let result = lhs & !rhs;
            self.r[rd] = result;
            self.set_nz(result);
        } else {
            let result = !rhs;
            self.r[rd] = result;
            self.set_nz(result);
        }
    }

    /// ADD, CMP, MOV and BX on the full register file.
    fn thumb_high_register(&mut self, op: u32)
        ensures
            high_register_done(&*old(self), &*final(self), op),
    {
        proof {
            lemma_and_le_u32(op, 7);
            lemma_and_le_u32(op >> 4u32, 8);
            lemma_list_bits(0, 0, op, 0, 0);
        }
        let rd = ((op & 7) | ((op >> 4u32) & 8)) as usize;
        let rs = ((op >> 3u32) & 0xf) as usize;
        proof {
            lemma_and_le_u32(op >> 3u32, 0xf);
        }
        let source = if rs == 15 {
            self.r[15] & !1u32
        } else {
            self.r[rs]
        };
        let code = (op >> 8u32) & 3;
        if code == 0 {
            let result = self.r[rd].wrapping_add(source);
            if rd == 15 {
                self.set_pc(result & !1u32);
            } else {
                self.r[rd] = result;
            }
        } else if code == 1 {
            let lhs = self.r[rd];
            self.sub_with_flags(lhs, source, true);
        } else if code == 2 {
            if rd == 15 {
                self.set_pc(source & !1u32);
            } else {
                self.r[rd] = source;
            }
        } else {
            self.branch_exchange(source);
        }
    }

    /// Loads and stores with a register offset.
    #[verifier::spinoff_prover]
    #[verifier::rlimit(100)]
    fn thumb_register_offset(&mut self, bus: &mut Bus, op: u32)
        requires
            old(bus).wf(),
        ensures
            final(bus).wf(),
            register_offset_done(&*old(self), &*final(self), &*old(bus), &*final(bus), op),
    {
        let rd = low_field(op, 0);
        let rb = low_field(op, 3);
        let ro = low_field(op, 6);
        let address = self.r[rb].wrapping_add(self.r[ro]);
        let code = (op >> 10u32) & 3;
        let ghost mut byte_read: u8 = 0;
        let ghost mut half_read: u16 = 0;
        let ghost mut word_read: u32 = 0;
        if op & 0x0200 == 0 {
            if code == 0 {
                bus.write32(address, self.r[rd]);
            } else if code == 1 {
                bus.write8(address, self.r[rd] as u8);
            } else if code == 2 {
                let word = bus.read32(address);
                proof {
                    lemma_and_le_u32(address, 3);
                    word_read = word;
                }
                self.r[rd] = ror(word, (address & 3) * 8);
            } else {
                let loaded = bus.read8(address);
                proof {
                    byte_read = loaded;
                }
                self.r[rd] = loaded as u32;
            }
        } else {
            if code == 0 {
                bus.write16(address, self.r[rd] as u16);
            } else if code == 1 {
                let loaded = bus.read8(address);
                proof {
                    byte_read = loaded;
                }
                self.r[rd] = loaded as i8 as i32 as u32;
            } else if code == 2 {
                let loaded = bus.read16(address);
                proof {
                    half_read = loaded;
                }
                let value = loaded as u32;
                self.r[rd] = if address & 1 != 0 {
                    ror(value, 8)
                } else {
                    value
                };
            } else {
                let value = if address & 1 != 0 {
                    let loaded = bus.read8(address);
                    proof {
                        byte_read = loaded;
                    }
                    loaded as i8 as i32 as u32
                } else {
                    let loaded = bus.read16(address);
                    proof {
                        half_read = loaded;
                    }
                    loaded as i16 as i32 as u32
                };
                self.r[rd] = value;
            }
        }
        proof {
            let value = self.r[rd as int];
            lemma_and_le_u32(op >> 10u32, 3);
            assert(old(self).r[low_reg(op, 3)].wrapping_add(old(self).r[low_reg(op, 6)]) == address);
            assert(low_reg(op, 0) == rd);
            if op & 0x0200 == 0 && code >= 2 {
                assert(self.r@ =~= loaded_registers(old(self).r@, rd as int, value));
                if code == 2 {
                    assert(read32_done(&*old(bus), address, word_read, &*bus) && self.r@
                        == loaded_registers(
                        old(self).r@,
                        rd as int,
                        ror_spec(word_read, ((address & 3) * 8) as u32),
                    ));
                    assert(load_done(self.r@, &*old(bus), &*bus, false, address, old(self).r@, rd as int));
                } else {
                    assert(read8_done(&*old(bus), address, byte_read, &*bus) && value
                        == byte_read as u32);
                    assert(load_done(self.r@, &*old(bus), &*bus, true, address, old(self).r@, rd as int));
                }
            } else if op & 0x0200 != 0 && code != 0 {
                let kind: u32 = if code == 1 {
                    2
                } else if code == 2 {
                    1
                } else {
                    3
                };
                assert(self.r@ =~= loaded_registers(old(self).r@, rd as int, value));
                if kind == 1 {
                    assert(read16_done(&*old(bus), address, half_read, &*bus));
                } else if kind == 2 || address & 1 != 0 {
                    assert(read8_done(&*old(bus), address, byte_read, &*bus));
                } else {
                    assert(read16_done(&*old(bus), address, half_read, &*bus));
                }
                assert(halfword_load_done(self.r@, &*old(bus), &*bus, kind, address, old(self).r@, rd as int));
            }
        }
    }

    /// PUSH and POP, with lr or pc as the optional extra register.
    fn thumb_push_pop(&mut self, bus: &mut Bus, op: u32)
        requires
            old(bus).wf(),
        ensures
            final(bus).wf(),
            ({
                let count = register_count((op & 0xff) as u16, 8) + if op & 0x0100 != 0 {
                    1int
                } else {
                    0int
                };
                let load = op & 0x0800 != 0;
                &&& !load && count > 0 ==> final(self).r@ == old(self).r@.update(
                    13,
                    old(self).r[13].wrapping_sub((count * 4) as u32),
                )
                &&& !load && count == 0 ==> final(self).r@ == old(self).r@.update(
                    13,
                    old(self).r[13].wrapping_sub(0x40),
                )
                &&& load && count == 0 ==> final(self).r[13] == old(self).r[13].wrapping_add(0x40)
                &&& load && count > 0 ==> final(self).r[13] == old(self).r[13].wrapping_add(
                    (count * 4) as u32,
                )
                &&& load ==> forall|i: int|
                    8 <= i < 13 || i == 14 ==> #[trigger] final(self).r[i] == old(self).r[i]
                &&& !load ==> *final(self) == (Cpu { r: final(self).r, ..*old(self) })
            }),
    {
        let load = op & 0x0800 != 0;
        let extra = op & 0x0100 != 0;
        let list = op & 0xff;
        proof {
            lemma_and_le_u32(op, 0xff);
            lemma_list_bits(0, 0, op, 0, 0);
            assert(register_count((op & 0xff) as u16, 16) == register_count((op & 0xff) as u16, 8)) by {
                lemma_high_bits_clear((op & 0xff) as u16);
            }
        }
        let listed = count_registers(list);
        let count = if extra {
            listed + 1
        } else {
            listed
        };
        if count == 0 {
            // An empty list moves the stack by 0x40 and transfers r15.
            if load {
                let value = bus.read32(self.r[13]);
                self.set_pc(value & !1u32);
                self.r[13] = self.r[13].wrapping_add(0x40);
            } else {
                let address = self.r[13].wrapping_sub(0x40);
                bus.write32(address, self.r[15].wrapping_add(2));
                self.r[13] = address;
            }
            return;
        }
        if load {
            let ghost start = self.r@;
            let mut address = self.r[13];
            let mut register: usize = 0;
            while register < 8
                invariant
                    bus.wf(),
                    register <= 8,
                    start.len() == 16,
                    self.r[13] == start[13],
                    forall|i: int| 8 <= i < 16 ==> #[trigger] self.r@[i] == start[i],
                    address == start[13].wrapping_add(
                        (register_count(list as u16, register as int) * 4) as u32,
                    ),
                    list <= 0xff,
                    register_count(list as u16, register as int) <= register,
                decreases 8 - register,
            {
                proof {
                    lemma_register_count_bound(list as u16, register as int);
                    lemma_bit_step(list, register as u32);
                    lemma_wrapping_step(start[13], register_count(list as u16, register as int));
                }
                if list & (1u32 << register as u32) != 0 {
                    let value = bus.read32(address);
                    self.r[register] = value;
                    address = address.wrapping_add(4);
                }
                register = register + 1;
            }
            if extra {
                let value = bus.read32(address);
                proof {
                    lemma_register_count_bound(list as u16, 8);
                    lemma_wrapping_step(start[13], register_count(list as u16, 8));
                }
                address = address.wrapping_add(4);
                self.set_pc(value & !1u32);
            }
            self.r[13] = address;
        } else {
            let ghost start = *self;
            let mut address = self.r[13].wrapping_sub(count * 4);
            self.r[13] = address;
            let mut register: usize = 0;
            while register < 8
                invariant
                    bus.wf(),
                    register <= 8,
                    *self == (Cpu { r: self.r, ..start }),
                    self.r@ == start.r@.update(13, start.r[13].wrapping_sub((count * 4) as u32)),
                decreases 8 - register,
            {
                if list & (1u32 << register as u32) != 0 {
                    bus.write32(address, self.r[register]);
                    address = address.wrapping_add(4);
                }
                register = register + 1;
            }
            if extra {
                bus.write32(address, self.r[14]);
            }
        }
    }

    /// LDMIA and STMIA with writeback.
    fn thumb_block_transfer(&mut self, bus: &mut Bus, op: u32)
        requires
            old(bus).wf(),
        ensures
            final(bus).wf(),
            ({
                let rb = low_reg(op, 8);
                let list = op & 0xff;
                let count = register_count(list as u16, 8);
                let load = op & 0x0800 != 0;
                &&& list == 0 ==> final(self).r[rb] == old(self).r[rb].wrapping_add(0x40)
                &&& list != 0 && !(load && (list >> (rb as u32)) & 1 == 1) ==> final(self).r[rb]
                    == old(self).r[rb].wrapping_add((count * 4) as u32)
                &&& !load ==> *final(self) == (Cpu { r: final(self).r, flush: final(self).flush, ..*old(self) })
                    && forall|i: int| 0 <= i < 16 && i != rb ==> #[trigger] final(self).r[i] == old(self).r[i]
            }),
    {
        let load = op & 0x0800 != 0;
        let rb = low_field(op, 8);
        let list = op & 0xff;
        let base = self.r[rb];
        if list == 0 {
            if load {
                let value = bus.read32(base & !3u32);
                self.set_pc(value & !1u32);
            } else {
                bus.write32(base & !3u32, self.r[15].wrapping_add(2));
            }
            self.r[rb] = base.wrapping_add(0x40);
            return;
        }
        proof {
            lemma_and_le_u32(op, 0xff);
            lemma_list_bits(0, 0, op, 0, 0);
            lemma_high_bits_clear((op & 0xff) as u16);
        }
        let count = count_registers(list);
        let final_base = base.wrapping_add(count * 4);
        if !load && list & (1u32 << rb as u32) != 0 && list.trailing_zeros() as usize != rb {
            self.r[rb] = final_base;
        }
        let ghost start = *self;
        let mut address = base & !3u32;
        let mut register: usize = 0;
        while register < 8
            invariant
                bus.wf(),
                register <= 8,
                rb < 8,
                !load ==> *self == start,
                load ==> self.r[rb as int] == start.r[rb as int] || (list >> (rb as u32)) & 1 == 1,
            decreases 8 - register,
        {
            if list & (1u32 << register as u32) != 0 {
                if load {
                    let value = bus.read32(address);
                    proof {
                        if register == rb {
                            super::lemma_word_bits(list, register as u32, 0, 0, 0);
                        }
                    }
                    self.r[register] = value;
                } else {
                    bus.write32(address, self.r[register]);
                }
                address = address.wrapping_add(4);
            }
            register = register + 1;
        }
        proof {
            let shift_by = rb as u32;
            super::lemma_word_bits(list, shift_by, 0, 0, 0);
        }
        if !load || list & (1u32 << rb as u32) == 0 {
            self.r[rb] = final_base;
        }
    }
}

proof fn lemma_high_bits_clear(list: u16)
    requires
        list <= 0xff,
    ensures
        register_count(list, 16) == register_count(list, 8),
{
    lemma_high_bits_clear_from(list, 16);
}

proof fn lemma_high_bits_clear_from(list: u16, k: int)
    requires
        list <= 0xff,
        8 <= k <= 16,
    ensures
        register_count(list, k) == register_count(list, 8),
    decreases k,
{
    if k > 8 {
        lemma_high_bits_clear_from(list, k - 1);
        let kk = (k - 1) as u16;
        lemma_list_bits(0, 0, 0, list, kk);
    }
}

proof fn lemma_bit_step(list: u32, register: u32)
    requires
        list <= 0xff,
        register < 8,
    ensures
        register_count(list as u16, register + 1) == register_count(list as u16, register as int)
            + if list & (1u32 << register) != 0 {
            1int
        } else {
            0int
        },
{
    let l = list as u16;
    let r = register as u16;
    lemma_list_bits(list, register, 0, 0, 0);
}

proof fn lemma_wrapping_step(base: u32, count: int)
    requires
        0 <= count <= 16,
    ensures
        base.wrapping_add((count * 4) as u32).wrapping_add(4) == base.wrapping_add(
            ((count + 1) * 4) as u32,
        ),
{
}

} // verus!
