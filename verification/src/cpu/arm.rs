//! ARM state instruction execution.

use super::{
    add_flags, bit_of, condition_holds, reg_at, reg_field, ror, ror_spec, shift, shift_spec,
    sub_flags, switched, banked_state, effective_mode, lemma_bit_test, lemma_edge_bits, Cpu,
    bank_index, MODE_FIQ, MODE_SYS, MODE_UND, MODE_USR,
};
use crate::bits::lemma_and_le_u32;
use crate::bus::{read16_done, read32_done, read8_done, write16_done, write32_done, write8_done, Bus};
use vstd::prelude::*;

verus! {

/// What executing the ARM instruction `op` does to the processor and the
/// bus, class by class, once its condition passes.
pub open spec fn arm_executed(a: &Cpu, ab: &Bus, op: u32, b: &Cpu, bb: &Bus) -> bool {
    &&& op >> 28u32 != 0xe && !condition_holds(
            op >> 28u32,
            a.n,
            a.z,
            a.c,
            a.v,
        ) ==> *b == *a && *bb == *ab
    &&& {
            let passes = op >> 28u32 == 0xe || condition_holds(
                op >> 28u32,
                a.n,
                a.z,
                a.c,
                a.v,
            );
            let class = (op >> 25u32) & 7;
            let exchange = class == 0 && op & 0x0fff_fff0 == 0x012f_ff10;
            let extension = class == 0 && !exchange && op & 0x90 == 0x90;
            let multiply = extension && (op >> 5u32) & 3 == 0 && op & 0x0100_0000 == 0;
            let register_form = (class == 0 && !exchange && !extension) || class == 1;
            let target = a.r[(op & 0xf) as int];
            &&& passes && exchange ==> *bb == *ab && b.thumb == bit_of(
                target,
                0,
            ) && b.r@ == a.r@.update(
                15,
                if bit_of(target, 0) {
                    target & !1u32
                } else {
                    target & !3u32
                },
            ) && *b == (Cpu {
                r: b.r,
                flush: true,
                thumb: b.thumb,
                ..*a
            })
            &&& passes && multiply && op & 0x0080_0000 != 0 ==> multiply_long_done(
                &*a,
                &*b,
                op,
            ) && *bb == *ab
            &&& passes && multiply && op & 0x0080_0000 == 0 ==> multiply_done(
                &*a,
                &*b,
                op,
            ) && *bb == *ab
            &&& passes && register_form && op & 0x0190_0000 == 0x0100_0000 ==> psr_transfer_done(
                &*a,
                &*b,
                op,
            ) && *bb == *ab
            &&& passes && register_form && op & 0x0190_0000 != 0x0100_0000
                ==> data_processing_done(&*a, &*b, op) && *bb
                == *ab
            &&& passes && class == 5 ==> branch_done(&*a, &*b, op)
                && *bb == *ab
            &&& passes && extension && (op >> 5u32) & 3 == 0 && op & 0x0100_0000 != 0 ==> swap_done(
                &*a,
                &*b,
                &*ab,
                &*bb,
                op,
            )
            &&& passes && extension && (op >> 5u32) & 3 != 0 ==> halfword_transfer_done(
                &*a,
                &*b,
                &*ab,
                &*bb,
                op,
            )
            &&& passes && class == 4 && op & 0x0010_0000 == 0 ==> exists|chain: Seq<Bus>|
                #[trigger] block_stores(chain, &*a, &*b, &*ab, &*bb, op)
            &&& passes && class == 4 && op & 0x0010_0000 != 0 && op & 0x0040_0000 == 0 ==> exists|
                chain: Seq<Bus>,
                words: Seq<u32>,
            | #[trigger] block_loads(
                chain,
                words,
                &*a,
                &*b,
                &*ab,
                &*bb,
                op,
            )
            &&& passes && (class == 2 || (class == 3 && op & 0x10 == 0)) ==> single_transfer_done(
                &*a,
                &*b,
                &*ab,
                &*bb,
                op,
            )
        }
}


/// The second operand of a data processing instruction and the carry the
/// shifter produces for it. A register shift amount reads r15 four bytes
/// further on.
pub open spec fn operand_spec(cpu: &Cpu, op: u32) -> (u32, bool) {
    if op & 0x0200_0000 != 0 {
        let amount = (((op >> 8u32) & 0xf) * 2) as u32;
        let value = op & 0xff;
        (
            ror_spec(value, amount),
            if amount != 0 {
                bit_of(ror_spec(value, amount), 31)
            } else {
                cpu.c
            },
        )
    } else {
        let kind = (op >> 5u32) & 3;
        let rm = (op & 0xf) as int;
        if op & 0x10 != 0 {
            let amount = cpu.r[reg_at(op, 8)] & 0xff;
            let value = if rm == 15 {
                cpu.r[15].wrapping_add(4)
            } else {
                cpu.r[rm]
            };
            shift_spec(kind, value, amount, false, cpu.c)
        } else {
            shift_spec(kind, cpu.r[rm], (op >> 7u32) & 0x1f, true, cpu.c)
        }
    }
}

/// The first operand: r15 reads four bytes further on when the shift
/// amount comes from a register.
pub open spec fn lhs_spec(cpu: &Cpu, op: u32) -> u32 {
    let rn = reg_at(op, 16);
    if rn == 15 && op & 0x0200_0000 == 0 && op & 0x10 != 0 {
        cpu.r[15].wrapping_add(4)
    } else {
        cpu.r[rn]
    }
}

/// The value an ALU opcode computes.
pub open spec fn alu_spec(opcode: u32, lhs: u32, operand: u32, carry: bool) -> u32 {
    if opcode == 0 || opcode == 8 {
        lhs & operand
    } else if opcode == 1 || opcode == 9 {
        lhs ^ operand
    } else if opcode == 2 || opcode == 10 {
        sub_flags(lhs, operand, true).0
    } else if opcode == 3 {
        sub_flags(operand, lhs, true).0
    } else if opcode == 4 || opcode == 11 {
        add_flags(lhs, operand, false).0
    } else if opcode == 5 {
        add_flags(lhs, operand, carry).0
    } else if opcode == 6 {
        sub_flags(lhs, operand, carry).0
    } else if opcode == 7 {
        sub_flags(operand, lhs, carry).0
    } else if opcode == 12 {
        lhs | operand
    } else if opcode == 13 {
        operand
    } else if opcode == 14 {
        lhs & !operand
    } else {
        !operand
    }
}

/// The logical data-processing operations act bit by bit: AND and TST keep
/// a bit set in both operands, EOR and TEQ one set in exactly one, ORR one
/// set in either, BIC one set in the first operand and clear in the
/// shifter operand, MVN one clear in the shifter operand; MOV passes the
/// shifter operand through.
pub proof fn law_logical_operations_act_bit_by_bit(lhs: u32, operand: u32, carry: bool, i: u32)
    requires
        i < 32,
    ensures
        bit_of(alu_spec(0, lhs, operand, carry), i) == (bit_of(lhs, i) && bit_of(operand, i)),
        bit_of(alu_spec(8, lhs, operand, carry), i) == (bit_of(lhs, i) && bit_of(operand, i)),
        bit_of(alu_spec(1, lhs, operand, carry), i) == (bit_of(lhs, i) != bit_of(operand, i)),
        bit_of(alu_spec(9, lhs, operand, carry), i) == (bit_of(lhs, i) != bit_of(operand, i)),
        bit_of(alu_spec(12, lhs, operand, carry), i) == (bit_of(lhs, i) || bit_of(operand, i)),
        bit_of(alu_spec(14, lhs, operand, carry), i) == (bit_of(lhs, i) && !bit_of(operand, i)),
        bit_of(alu_spec(15, lhs, operand, carry), i) == !bit_of(operand, i),
        alu_spec(13, lhs, operand, carry) == operand,
{
    crate::bits::lemma_bitwise_bit(lhs, operand, i);
}

/// ORR sets bits and never clears one: `orr x, x, #k` with every bit of `k`
/// already in `x` leaves `x` as it was, and so does ORR with zero.
pub proof fn law_orr_only_sets_bits(lhs: u32, operand: u32, carry: bool)
    ensures
        lhs & operand == operand ==> alu_spec(12, lhs, operand, carry) == lhs,
        alu_spec(12, lhs, 0, carry) == lhs,
        alu_spec(12, lhs, lhs, carry) == lhs,
{
    crate::bits::lemma_or_absorbs(lhs, operand);
}

/// The arithmetic operations agree with each other as arithmetic modulo
/// 2^32 does: subtracting what was added gives the first operand back, RSB
/// is SUB with the operands swapped, ADC without carry is ADD and SBC with
/// carry (no borrow) is SUB, and CMP and CMN compute what SUB and ADD do.
pub proof fn law_arithmetic_operations_agree(lhs: u32, operand: u32, carry: bool)
    ensures
        alu_spec(2, alu_spec(4, lhs, operand, carry), operand, carry) == lhs,
        alu_spec(4, alu_spec(2, lhs, operand, carry), operand, carry) == lhs,
        alu_spec(3, lhs, operand, carry) == alu_spec(2, operand, lhs, carry),
        alu_spec(5, lhs, operand, false) == alu_spec(4, lhs, operand, carry),
        alu_spec(6, lhs, operand, true) == alu_spec(2, lhs, operand, carry),
        alu_spec(7, lhs, operand, true) == alu_spec(3, lhs, operand, carry),
        alu_spec(10, lhs, operand, carry) == alu_spec(2, lhs, operand, carry),
        alu_spec(11, lhs, operand, carry) == alu_spec(4, lhs, operand, carry),
        alu_spec(4, lhs, 0, carry) == lhs,
        alu_spec(2, lhs, lhs, carry) == 0,
{
}

/// The carry and overflow an arithmetic opcode sets.
pub open spec fn alu_carry_overflow(opcode: u32, lhs: u32, operand: u32, carry: bool) -> (bool, bool) {
    if opcode == 2 || opcode == 10 {
        (sub_flags(lhs, operand, true).1, sub_flags(lhs, operand, true).2)
    } else if opcode == 3 {
        (sub_flags(operand, lhs, true).1, sub_flags(operand, lhs, true).2)
    } else if opcode == 4 || opcode == 11 {
        (add_flags(lhs, operand, false).1, add_flags(lhs, operand, false).2)
    } else if opcode == 5 {
        (add_flags(lhs, operand, carry).1, add_flags(lhs, operand, carry).2)
    } else if opcode == 6 {
        (sub_flags(lhs, operand, carry).1, sub_flags(lhs, operand, carry).2)
    } else {
        (sub_flags(operand, lhs, carry).1, sub_flags(operand, lhs, carry).2)
    }
}

/// Opcodes whose flags come from the shifter rather than the adder.
pub open spec fn is_logical(opcode: u32) -> bool {
    opcode == 0 || opcode == 1 || opcode == 8 || opcode == 9 || opcode >= 12
}

/// TST, TEQ, CMP and CMN only set flags.
pub open spec fn is_compare(opcode: u32) -> bool {
    8 <= opcode <= 11
}

/// A branch offset: 24 bits, in words, sign extended.
pub open spec fn branch_offset(op: u32) -> u32 {
    ((((op & 0x00ff_ffff) << 8u32) as i32) >> 6u32) as u32
}

/// The bits of the status registers an MSR may write.
pub open spec fn msr_mask(op: u32) -> u32 {
    let fields = (op >> 16u32) & 0xf;
    (if fields & 1 != 0 {
        0x0000_00ffu32
    } else {
        0
    }) | (if fields & 2 != 0 {
        0x0000_ff00u32
    } else {
        0
    }) | (if fields & 4 != 0 {
        0x00ff_0000u32
    } else {
        0
    }) | (if fields & 8 != 0 {
        0xff00_0000u32
    } else {
        0
    })
}

/// The 64 bit result of a long multiply, before accumulating.
pub open spec fn long_product(op: u32, rm: u32, rs: u32) -> u64 {
    if op & 0x0040_0000 != 0 {
        ((rm as i32 as int) * (rs as i32 as int)) as u64
    } else {
        ((rm as int) * (rs as int)) as u64
    }
}

/// A data processing instruction: the ALU result, the flags it sets, and the status register restored when S is set with r15 as destination.
pub open spec fn data_processing_done(a: &Cpu, b: &Cpu, op: u32) -> bool {
    let opcode = (op >> 21u32) & 0xf;
    let rd = reg_at(op, 12);
    let set_flags = op & 0x0010_0000 != 0;
    let lhs = lhs_spec(a, op);
    let (operand, shifter_carry) = operand_spec(a, op);
    let result = alu_spec(opcode, lhs, operand, a.c);
    let (carry, overflow) = alu_carry_overflow(opcode, lhs, operand, a.c);
    let restores = set_flags && rd == 15;
    &&& !is_compare(opcode) && rd != 15 ==> b.r@ == a.r@.update(
        rd,
        result,
    )
    &&& is_compare(opcode) && !restores ==> b.r == a.r
    &&& !is_compare(opcode) && rd == 15 && !set_flags ==> b.r@ == a.r@.update(
        15,
        result & if a.thumb {
            !1u32
        } else {
            !3u32
        },
    ) && b.flush
    &&& set_flags && !restores && is_logical(opcode) ==> b.n == (result
        >= 0x8000_0000) && b.z == (result == 0) && b.c
        == shifter_carry && b.v == a.v
    &&& set_flags && !restores && !is_logical(opcode) ==> b.n == (result
        >= 0x8000_0000) && b.z == (result == 0) && b.c == carry
        && b.v == overflow
    &&& !set_flags ==> b.n == a.n && b.z == a.z
        && b.c == a.c && b.v == a.v
    &&& restores && (!is_compare(opcode) || (a.mode != MODE_USR && a.mode != MODE_SYS)) ==> b.n == bit_of(a.spsr, 31) && b.z == bit_of(a.spsr, 30) && b.c == bit_of(a.spsr, 29)
        && b.v == bit_of(a.spsr, 28) && b.mode
        == effective_mode(a.spsr & 0x1f)
    &&& !restores ==> b.mode == a.mode && b.thumb == a.thumb && b.irq_disable == a.irq_disable
}

/// MUL or MLA: the low 32 bits of the product (plus the accumulator).
pub open spec fn multiply_done(a: &Cpu, b: &Cpu, op: u32) -> bool {
    let product = (a.r[(op & 0xf) as int] * a.r[reg_at(op, 8)]) as int;
    let total = if op & 0x0020_0000 != 0 {
        product + a.r[reg_at(op, 12)]
    } else {
        product
    };
    let result = (total % 0x1_0000_0000) as u32;
    &&& b.r@ == a.r@.update(reg_at(op, 16), result)
    &&& op & 0x0010_0000 != 0 ==> *b == (Cpu {
        r: b.r,
        n: result >= 0x8000_0000,
        z: result == 0,
        ..*a
    })
    &&& op & 0x0010_0000 == 0 ==> *b == (Cpu { r: b.r, ..*a })
}

/// UMULL, UMLAL, SMULL or SMLAL: the 64 bit product (plus the accumulator) in two registers.
pub open spec fn multiply_long_done(a: &Cpu, b: &Cpu, op: u32) -> bool {
    let rm = a.r[(op & 0xf) as int];
    let rs = a.r[reg_at(op, 8)];
    let low = reg_at(op, 12);
    let high = reg_at(op, 16);
    let accumulated = (a.r[low] as u64) | ((a.r[high] as u64) << 32u64);
    let product = long_product(op, rm, rs);
    let result = if op & 0x0020_0000 != 0 {
        product.wrapping_add(accumulated)
    } else {
        product
    };
    &&& b.r@ == a.r@.update(low, result as u32).update(
        high,
        (result >> 32u64) as u32,
    )
    &&& op & 0x0010_0000 != 0 ==> *b == (Cpu {
        r: b.r,
        n: result >= 0x8000_0000_0000_0000,
        z: result == 0,
        ..*a
    })
    &&& op & 0x0010_0000 == 0 ==> *b == (Cpu { r: b.r, ..*a })
}

/// MRS or MSR: a status register read into a register, or the fields the mask selects written.
pub open spec fn psr_transfer_done(a: &Cpu, b: &Cpu, op: u32) -> bool {
    &&& op & 0x0020_0000 == 0 ==> b.r@ == a.r@.update(
            reg_at(op, 12),
            if op & 0x0040_0000 != 0 {
                a.spsr
            } else {
                a.cpsr_spec()
            },
        ) && *b == (Cpu { r: b.r, ..*a })
    &&& {
            let value = if op & 0x0200_0000 != 0 {
                ror_spec(op & 0xff, (((op >> 8u32) & 0xf) * 2) as u32)
            } else {
                a.r[(op & 0xf) as int]
            };
            let mask = msr_mask(op);
            &&& op & 0x0020_0000 != 0 && op & 0x0040_0000 != 0 ==> *b == (Cpu {
                spsr: (a.spsr & !mask) | (value & mask),
                ..*a
            })
            &&& op & 0x0020_0000 != 0 && op & 0x0040_0000 == 0 ==> {
                let allowed = if a.mode == MODE_USR {
                    mask & 0xf000_0000
                } else {
                    mask
                };
                let updated = (a.cpsr_spec() & !allowed) | (value & allowed);
                &&& b.n == bit_of(updated, 31)
                &&& b.z == bit_of(updated, 30)
                &&& b.c == bit_of(updated, 29)
                &&& b.v == bit_of(updated, 28)
                &&& allowed & 0xff != 0 ==> banked_state(&*b) == switched(
                    banked_state(&*a),
                    updated & 0x1f,
                )
                &&& allowed & 0xff == 0 ==> b.r == a.r && b.mode
                    == a.mode
            }
        }
    &&& b.halted == a.halted
    &&& b.intr_wait == a.intr_wait
    &&& b.flush == a.flush
}

/// B or BL: the link register takes the return address for BL, the program counter the target.
pub open spec fn branch_done(a: &Cpu, b: &Cpu, op: u32) -> bool {
    &&& b.r@ == (if op & 0x0100_0000 != 0 {
            a.r@.update(14, a.r[15].wrapping_sub(4))
        } else {
            a.r@
        }).update(15, a.r[15].wrapping_add(branch_offset(op)) & !3u32)
    &&& *b == (Cpu { r: b.r, flush: true, ..*a })
}

/// The registers after a load of `value` into `rd`: r15 takes it word
/// aligned, as a branch.
pub open spec fn loaded_registers(registers: Seq<u32>, rd: int, value: u32) -> Seq<u32> {
    if rd == 15 {
        registers.update(15, value & !3u32)
    } else {
        registers.update(rd, value)
    }
}

/// The registers a block transfer moves: an empty list moves r15 alone.
pub open spec fn block_list(op: u32) -> u32 {
    if op & 0xffff == 0 {
        0x8000
    } else {
        op & 0xffff
    }
}

/// Whether register `i` is in a register list.
pub open spec fn listed(list: u32, i: int) -> bool {
    ((list as u16) >> (i as u16)) & 1 == 1
}

/// How far a block transfer moves its base: four bytes a register, and
/// 0x40 for an empty list.
pub open spec fn block_width(op: u32) -> u32 {
    if op & 0xffff == 0 {
        0x40
    } else {
        (register_count((op & 0xffff) as u16, 16) * 4) as u32
    }
}

/// The base after a block transfer that writes it back.
pub open spec fn block_final_base(base: u32, op: u32) -> u32 {
    if op & 0x0080_0000 != 0 {
        base.wrapping_add(block_width(op))
    } else {
        base.wrapping_sub(block_width(op))
    }
}

/// The word-aligned address of the first word a block transfer moves: the
/// lowest address of the block, one word on for increment-before and for
/// decrement-after.
pub open spec fn block_start(base: u32, op: u32) -> u32 {
    let up = op & 0x0080_0000 != 0;
    let low = if up {
        base
    } else {
        base.wrapping_sub(block_width(op))
    };
    (if up == (op & 0x0100_0000 != 0) {
        low.wrapping_add(4)
    } else {
        low
    }) & !3u32
}

/// The address of word `slot` of a block that starts at `start`.
pub open spec fn slot_address(start: u32, slot: int) -> u32 {
    ((start + 4 * slot) % 0x1_0000_0000) as u32
}

/// Whether a user mode register is held in a bank other than the current
/// one in `mode`.
pub open spec fn user_banked(mode: u32, i: int) -> bool {
    (8 <= i <= 12 && mode == MODE_FIQ) || ((i == 13 || i == 14) && bank_index(mode) != 0)
}

/// The word STM stores for register `i`: a base written back before the
/// stores (when it is not the lowest register listed) reads its new value,
/// r15 reads as the instruction's address plus twelve, and with the S bit
/// the registers of the user bank are stored.
pub open spec fn stored_word(a: &Cpu, op: u32, i: int) -> u32 {
    let rn = reg_at(op, 16);
    let early = op & 0x0020_0000 != 0 && rn != block_list(op).trailing_zeros();
    let current = if i == rn && early {
        block_final_base(a.r[rn], op)
    } else {
        a.r[i]
    };
    if i == 15 {
        current.wrapping_add(4)
    } else if op & 0x0040_0000 != 0 && user_banked(a.mode, i) {
        a.user_reg_spec(i)
    } else {
        current
    }
}

/// The word STM stores for register `i` from `a`, the processor as the
/// stores begin: r15 reads as the instruction's address plus twelve, and
/// with `user` the user bank is read.
pub open spec fn word_to_store(a: &Cpu, i: int, user: bool) -> u32 {
    if i == 15 {
        a.r[15].wrapping_add(4)
    } else if user {
        a.user_reg_spec(i)
    } else {
        a.r[i]
    }
}

/// The listed registers' words stored in ascending order from `first`,
/// through the bus states `chain`.
pub open spec fn block_stored(
    chain: Seq<Bus>,
    bus: &Bus,
    after: &Bus,
    list: u32,
    first: u32,
    a: &Cpu,
    user: bool,
) -> bool {
    let count = register_count(list as u16, 16);
    &&& chain.len() == count + 1
    &&& chain[0] == *bus
    &&& chain[count] == *after
    &&& forall|i: int|
        0 <= i < 16 && listed(list, i) ==> #[trigger] write32_done(
            &chain[register_count(list as u16, i)],
            slot_address(first, register_count(list as u16, i)),
            word_to_store(a, i, user),
            &chain[register_count(list as u16, i) + 1],
        )
}

/// The listed registers loaded in ascending order from ascending words
/// from `first` (`words`, read through the bus states `chain`), r15 word
/// aligned as a branch; nothing else in the processor changes.
pub open spec fn block_loaded(
    chain: Seq<Bus>,
    words: Seq<u32>,
    a: &Cpu,
    b: &Cpu,
    bus: &Bus,
    after: &Bus,
    list: u32,
    first: u32,
) -> bool {
    let count = register_count(list as u16, 16);
    &&& chain.len() == count + 1
    &&& words.len() == count
    &&& chain[0] == *bus
    &&& chain[count] == *after
    &&& forall|i: int|
        0 <= i < 16 && listed(list, i) ==> #[trigger] read32_done(
            &chain[register_count(list as u16, i)],
            slot_address(first, register_count(list as u16, i)),
            words[register_count(list as u16, i)],
            &chain[register_count(list as u16, i) + 1],
        )
    &&& forall|i: int|
        0 <= i < 16 ==> #[trigger] b.r[i] == if listed(list, i) {
            if i == 15 {
                words[register_count(list as u16, i)] & !3u32
            } else {
                words[register_count(list as u16, i)]
            }
        } else {
            a.r[i]
        }
    &&& *b == (Cpu { r: b.r, flush: listed(list, 15) || a.flush, ..*a })
}

/// STM: the listed registers stored in ascending order to ascending words,
/// through the bus states `chain`; the base is written back on request.
pub open spec fn block_stores(chain: Seq<Bus>, a: &Cpu, b: &Cpu, bus: &Bus, after: &Bus, op: u32) -> bool {
    let list = block_list(op);
    let rn = reg_at(op, 16);
    let start = block_start(a.r[rn], op);
    let count = register_count(list as u16, 16);
    &&& chain.len() == count + 1
    &&& chain[0] == *bus
    &&& chain[count] == *after
    &&& forall|i: int|
        0 <= i < 16 && listed(list, i) ==> #[trigger] write32_done(
            &chain[register_count(list as u16, i)],
            slot_address(start, register_count(list as u16, i)),
            stored_word(a, op, i),
            &chain[register_count(list as u16, i) + 1],
        )
    &&& b.r@ == (if op & 0x0020_0000 != 0 {
        a.r@.update(rn, block_final_base(a.r[rn], op))
    } else {
        a.r@
    })
    &&& *b == (Cpu { r: b.r, ..*a })
}

/// LDM without the S bit: the listed registers loaded in ascending order
/// from ascending words (`words`, read through the bus states `chain`), r15
/// word aligned as a branch; the base is written back on request unless it
/// was loaded.
pub open spec fn block_loads(
    chain: Seq<Bus>,
    words: Seq<u32>,
    a: &Cpu,
    b: &Cpu,
    bus: &Bus,
    after: &Bus,
    op: u32,
) -> bool {
    let list = block_list(op);
    let rn = reg_at(op, 16);
    let start = block_start(a.r[rn], op);
    let count = register_count(list as u16, 16);
    &&& chain.len() == count + 1
    &&& words.len() == count
    &&& chain[0] == *bus
    &&& chain[count] == *after
    &&& forall|i: int|
        0 <= i < 16 && listed(list, i) ==> #[trigger] read32_done(
            &chain[register_count(list as u16, i)],
            slot_address(start, register_count(list as u16, i)),
            words[register_count(list as u16, i)],
            &chain[register_count(list as u16, i) + 1],
        )
    &&& forall|i: int|
        0 <= i < 16 ==> #[trigger] b.r[i] == if listed(list, i) {
            if i == 15 {
                words[register_count(list as u16, i)] & !3u32
            } else {
                words[register_count(list as u16, i)]
            }
        } else if i == rn && op & 0x0020_0000 != 0 {
            block_final_base(a.r[rn], op)
        } else {
            a.r[i]
        }
    &&& *b == (Cpu { r: b.r, flush: listed(list, 15) || a.flush, ..*a })
}

/// SWP or SWPB: the word (rotated so that the addressed byte comes lowest)
/// or byte at the address in rn is read into rd, and rm's word or low byte
/// is then written there.
pub open spec fn swap_done(a: &Cpu, b: &Cpu, bus: &Bus, after: &Bus, op: u32) -> bool {
    let address = a.r[reg_at(op, 16)];
    let rd = reg_at(op, 12);
    let stored = a.r[(op & 0xf) as int];
    &&& *b == (Cpu { r: b.r, ..*a })
    &&& op & 0x0040_0000 != 0 ==> exists|mid: Bus, value: u8|
        #[trigger] read8_done(bus, address, value, &mid) && write8_done(
            &mid,
            address,
            stored as u8,
            after,
        ) && b.r@ == a.r@.update(rd, value as u32)
    &&& op & 0x0040_0000 == 0 ==> exists|mid: Bus, word: u32|
        #[trigger] read32_done(bus, address, word, &mid) && write32_done(
            &mid,
            address,
            stored,
            after,
        ) && b.r@ == a.r@.update(rd, ror_spec(word, ((address & 3) * 8) as u32))
}

/// The registers after a byte or word load at `address` into `rd` from
/// `based`: the byte read, or the word read rotated so that the addressed
/// byte comes lowest.
pub open spec fn load_done(
    registers: Seq<u32>,
    bus: &Bus,
    after: &Bus,
    byte: bool,
    address: u32,
    based: Seq<u32>,
    rd: int,
) -> bool {
    &&& byte ==> exists|value: u8|
        #[trigger] read8_done(bus, address, value, after) && registers == loaded_registers(
            based,
            rd,
            value as u32,
        )
    &&& !byte ==> exists|word: u32|
        #[trigger] read32_done(bus, address, word, after) && registers == loaded_registers(
            based,
            rd,
            ror_spec(word, ((address & 3) * 8) as u32),
        )
}

/// The registers after a halfword or signed load at `address` into `rd`
/// from `based`: LDRH zero-extends (an odd address rotates by a byte),
/// LDRSB sign-extends a byte, and LDRSH sign-extends a halfword, or the
/// byte alone at an odd address.
pub open spec fn halfword_load_done(
    registers: Seq<u32>,
    bus: &Bus,
    after: &Bus,
    kind: u32,
    address: u32,
    based: Seq<u32>,
    rd: int,
) -> bool {
    &&& kind == 1 ==> exists|half: u16|
        #[trigger] read16_done(bus, address, half, after) && registers == loaded_registers(
            based,
            rd,
            if address & 1 != 0 {
                ror_spec(half as u32, 8)
            } else {
                half as u32
            },
        )
    &&& (kind == 2 || (kind != 1 && address & 1 != 0)) ==> exists|byte: u8|
        #[trigger] read8_done(bus, address, byte, after) && registers == loaded_registers(
            based,
            rd,
            byte as i8 as i32 as u32,
        )
    &&& kind != 1 && kind != 2 && address & 1 == 0 ==> exists|half: u16|
        #[trigger] read16_done(bus, address, half, after) && registers == loaded_registers(
            based,
            rd,
            half as i16 as i32 as u32,
        )
}

/// LDRH, STRH, LDRSB or LDRSH: the address is the base plus or minus an
/// eight bit immediate or a register, before or after indexing; the base
/// takes the indexed address on write-back or post-indexing before a load
/// lands; a store of r15 stores the instruction's address plus twelve.
pub open spec fn halfword_transfer_done(a: &Cpu, b: &Cpu, bus: &Bus, after: &Bus, op: u32) -> bool {
    let pre = op & 0x0100_0000 != 0;
    let moved = op & 0x0020_0000 != 0 || !pre;
    let rn = reg_at(op, 16);
    let rd = reg_at(op, 12);
    let offset = if op & 0x0040_0000 != 0 {
        ((op >> 4u32) & 0xf0) | (op & 0xf)
    } else {
        a.r[(op & 0xf) as int]
    };
    let offset_address = if op & 0x0080_0000 != 0 {
        a.r[rn].wrapping_add(offset)
    } else {
        a.r[rn].wrapping_sub(offset)
    };
    let address = if pre {
        offset_address
    } else {
        a.r[rn]
    };
    let based = if moved {
        a.r@.update(rn, offset_address)
    } else {
        a.r@
    };
    if op & 0x0010_0000 != 0 {
        &&& halfword_load_done(b.r@, bus, after, (op >> 5u32) & 3, address, based, rd)
        &&& *b == (Cpu { r: b.r, flush: rd == 15 || a.flush, ..*a })
    } else {
        let value = if rd == 15 {
            a.r[15].wrapping_add(4)
        } else {
            a.r[rd]
        };
        &&& write16_done(bus, address, value as u16, after)
        &&& b.r@ == based
        &&& *b == (Cpu { r: b.r, ..*a })
    }
}

/// LDR, STR, LDRB or STRB: the address is the base register plus or minus
/// an immediate or a shifted register, before or after indexing; the base
/// takes the indexed address on write-back or post-indexing (unless a load
/// replaces it); a load into r15 branches to the word-aligned value, and a
/// store of r15 stores the instruction's address plus twelve.
pub open spec fn single_transfer_done(a: &Cpu, b: &Cpu, bus: &Bus, after: &Bus, op: u32) -> bool {
    let pre = op & 0x0100_0000 != 0;
    let byte = op & 0x0040_0000 != 0;
    let moved = op & 0x0020_0000 != 0 || !pre;
    let rn = reg_at(op, 16);
    let rd = reg_at(op, 12);
    let offset = if op & 0x0200_0000 != 0 {
        shift_spec((op >> 5u32) & 3, a.r[(op & 0xf) as int], (op >> 7u32) & 0x1f, true, a.c).0
    } else {
        op & 0xfff
    };
    let offset_address = if op & 0x0080_0000 != 0 {
        a.r[rn].wrapping_add(offset)
    } else {
        a.r[rn].wrapping_sub(offset)
    };
    let address = if pre {
        offset_address
    } else {
        a.r[rn]
    };
    if op & 0x0010_0000 != 0 {
        let based = if moved && rn != rd {
            a.r@.update(rn, offset_address)
        } else {
            a.r@
        };
        &&& load_done(b.r@, bus, after, byte, address, based, rd)
        &&& *b == (Cpu { r: b.r, flush: rd == 15 || a.flush, ..*a })
    } else {
        let value = if rd == 15 {
            a.r[15].wrapping_add(4)
        } else {
            a.r[rd]
        };
        &&& if byte {
            write8_done(bus, address, value as u8, after)
        } else {
            write32_done(bus, address, value, after)
        }
        &&& b.r@ == (if moved {
            a.r@.update(rn, offset_address)
        } else {
            a.r@
        })
        &&& *b == (Cpu { r: b.r, ..*a })
    }
}

impl Cpu {
    /// Runs one ARM instruction. One whose condition fails changes nothing.
    pub(super) fn execute_arm(&mut self, bus: &mut Bus, op: u32)
        requires
            old(bus).wf(),
        ensures
            final(bus).wf(),
            op >> 28u32 != 0xe && !condition_holds(
                op >> 28u32,
                old(self).n,
                old(self).z,
                old(self).c,
                old(self).v,
            ) ==> *final(self) == *old(self) && *final(bus) == *old(bus),
            ({
                let passes = op >> 28u32 == 0xe || condition_holds(
                    op >> 28u32,
                    old(self).n,
                    old(self).z,
                    old(self).c,
                    old(self).v,
                );
                let class = (op >> 25u32) & 7;
                let exchange = class == 0 && op & 0x0fff_fff0 == 0x012f_ff10;
                let extension = class == 0 && !exchange && op & 0x90 == 0x90;
                let multiply = extension && (op >> 5u32) & 3 == 0 && op & 0x0100_0000 == 0;
                let register_form = (class == 0 && !exchange && !extension) || class == 1;
                let target = old(self).r[(op & 0xf) as int];
                &&& passes && exchange ==> *final(bus) == *old(bus) && final(self).thumb == bit_of(
                    target,
                    0,
                ) && final(self).r@ == old(self).r@.update(
                    15,
                    if bit_of(target, 0) {
                        target & !1u32
                    } else {
                        target & !3u32
                    },
                ) && *final(self) == (Cpu {
                    r: final(self).r,
                    flush: true,
                    thumb: final(self).thumb,
                    ..*old(self)
                })
                &&& passes && multiply && op & 0x0080_0000 != 0 ==> multiply_long_done(
                    &*old(self),
                    &*final(self),
                    op,
                ) && *final(bus) == *old(bus)
                &&& passes && multiply && op & 0x0080_0000 == 0 ==> multiply_done(
                    &*old(self),
                    &*final(self),
                    op,
                ) && *final(bus) == *old(bus)
                &&& passes && register_form && op & 0x0190_0000 == 0x0100_0000 ==> psr_transfer_done(
                    &*old(self),
                    &*final(self),
                    op,
                ) && *final(bus) == *old(bus)
                &&& passes && register_form && op & 0x0190_0000 != 0x0100_0000
                    ==> data_processing_done(&*old(self), &*final(self), op) && *final(bus)
                    == *old(bus)
                &&& passes && class == 5 ==> branch_done(&*old(self), &*final(self), op)
                    && *final(bus) == *old(bus)
                &&& passes && extension && (op >> 5u32) & 3 == 0 && op & 0x0100_0000 != 0 ==> swap_done(
                    &*old(self),
                    &*final(self),
                    &*old(bus),
                    &*final(bus),
                    op,
                )
                &&& passes && extension && (op >> 5u32) & 3 != 0 ==> halfword_transfer_done(
                    &*old(self),
                    &*final(self),
                    &*old(bus),
                    &*final(bus),
                    op,
                )
                &&& passes && class == 4 && op & 0x0010_0000 == 0 ==> exists|chain: Seq<Bus>|
                    #[trigger] block_stores(chain, &*old(self), &*final(self), &*old(bus), &*final(bus), op)
                &&& passes && class == 4 && op & 0x0010_0000 != 0 && op & 0x0040_0000 == 0 ==> exists|
                    chain: Seq<Bus>,
                    words: Seq<u32>,
                | #[trigger] block_loads(
                    chain,
                    words,
                    &*old(self),
                    &*final(self),
                    &*old(bus),
                    &*final(bus),
                    op,
                )
                &&& passes && (class == 2 || (class == 3 && op & 0x10 == 0)) ==> single_transfer_done(
                    &*old(self),
                    &*final(self),
                    &*old(bus),
                    &*final(bus),
                    op,
                )
            }),
            arm_executed(&*old(self), &*old(bus), op, &*final(self), &*final(bus)),
    {
        let condition = op >> 28u32;
        if condition != 0xe && !self.check_condition(condition) {
            return;
        }
        let class = (op >> 25u32) & 7;
        if class == 0 {
            if op & 0x0fff_fff0 == 0x012f_ff10 {
                proof {
                    lemma_and_le_u32(op, 0xf);
                }
                let target = self.r[(op & 0xf) as usize];
                self.branch_exchange(target);
            } else if op & 0x90 == 0x90 {
                if (op >> 5u32) & 3 == 0 {
                    if op & 0x0100_0000 != 0 {
                        self.arm_swap(bus, op);
                    } else if op & 0x0080_0000 != 0 {
                        self.arm_multiply_long(op);
                    } else {
                        self.arm_multiply(op);
                    }
                } else {
                    self.arm_halfword_transfer(bus, op);
                }
            } else if op & 0x0190_0000 == 0x0100_0000 {
                self.arm_psr_transfer(op);
            } else {
                self.arm_data_processing(op);
            }
        } else if class == 1 {
            if op & 0x0190_0000 == 0x0100_0000 {
                self.arm_psr_transfer(op);
            } else {
                self.arm_data_processing(op);
            }
        } else if class == 2 || class == 3 {
            // A set bit 4 in the register-offset form is undefined space.
            if class == 3 && op & 0x10 != 0 {
                self.exception(0x04, MODE_UND);
            } else {
                self.arm_single_transfer(bus, op);
            }
        } else if class == 4 {
            self.arm_block_transfer(bus, op);
        } else if class == 5 {
            self.arm_branch(op);
        } else if class == 7 && op & 0x0f00_0000 == 0x0f00_0000 {
            let comment = ((op >> 16u32) & 0xff) as u8;
            self.software_interrupt(bus, comment);
        } else {
            self.exception(0x04, MODE_UND);
        }
    }

    /// B and BL: the offset counts from r15, which runs eight bytes ahead;
    /// BL leaves the address of the next instruction in r14.
    fn arm_branch(&mut self, op: u32)
        ensures
            branch_done(&*old(self), &*final(self), op),
    {
        let offset = ((((op & 0x00ff_ffff) << 8u32) as i32) >> 6u32) as u32;
        if op & 0x0100_0000 != 0 {
            self.r[14] = self.r[15].wrapping_sub(4);
        }
        let target = self.r[15].wrapping_add(offset);
        self.set_pc(target & !3u32);
    }

    fn arm_operand(&self, op: u32) -> (result: (u32, bool))
        ensures
            result == operand_spec(self, op),
    {
        let mut carry = self.c;
        if op & 0x0200_0000 != 0 {
            proof {
                lemma_and_le_u32(op >> 8u32, 0xf);
            }
            let amount = ((op >> 8u32) & 0xf) * 2;
            let value = op & 0xff;
            let rotated = ror(value, amount);
            if amount != 0 {
                proof {
                    lemma_edge_bits(rotated);
                }
                carry = rotated & 0x8000_0000 != 0;
            }
            (rotated, carry)
        } else {
            let kind = (op >> 5u32) & 3;
            let rm = (op & 0xf) as usize;
            proof {
                lemma_and_le_u32(op, 0xf);
            }
            if op & 0x10 != 0 {
                // Shift amount from a register: r15 reads four bytes further on.
                let amount = self.r[reg_field(op, 8)] & 0xff;
                let value = if rm == 15 {
                    self.r[15].wrapping_add(4)
                } else {
                    self.r[rm]
                };
                let result = shift(kind, value, amount, false, &mut carry);
                (result, carry)
            } else {
                let amount = (op >> 7u32) & 0x1f;
                let result = shift(kind, self.r[rm], amount, true, &mut carry);
                (result, carry)
            }
        }
    }

    /// The ALU half of data processing: the value, and for arithmetic
    /// opcodes with S set the four flags.
    fn alu_operation(&mut self, opcode: u32, lhs: u32, operand: u32, set_flags: bool) -> (result: u32)
        ensures
            result == alu_spec(opcode, lhs, operand, old(self).c),
            set_flags && !is_logical(opcode) ==> *final(self) == (Cpu {
                n: result >= 0x8000_0000,
                z: result == 0,
                c: alu_carry_overflow(opcode, lhs, operand, old(self).c).0,
                v: alu_carry_overflow(opcode, lhs, operand, old(self).c).1,
                ..*old(self)
            }),
            !(set_flags && !is_logical(opcode)) ==> *final(self) == *old(self),
    {
        let carry_in = self.c;
        proof {
            lemma_wrapping_matches(lhs, operand, carry_in);
        }
        if opcode == 0 || opcode == 8 {
            lhs & operand
        } else if opcode == 1 || opcode == 9 {
            lhs ^ operand
        } else if opcode == 2 || opcode == 10 {
            if set_flags {
                self.sub_with_flags(lhs, operand, true)
            } else {
                lhs.wrapping_sub(operand)
            }
        } else if opcode == 3 {
            if set_flags {
                self.sub_with_flags(operand, lhs, true)
            } else {
                operand.wrapping_sub(lhs)
            }
        } else if opcode == 4 || opcode == 11 {
            if set_flags {
                self.add_with_flags(lhs, operand, false)
            } else {
                lhs.wrapping_add(operand)
            }
        } else if opcode == 5 {
            if set_flags {
                self.add_with_flags(lhs, operand, carry_in)
            } else {
                let c: u32 = if carry_in {
                    1
                } else {
                    0
                };
                lhs.wrapping_add(operand).wrapping_add(c)
            }
        } else if opcode == 6 {
            if set_flags {
                self.sub_with_flags(lhs, operand, carry_in)
            } else {
                let borrow: u32 = if carry_in {
                    0
                } else {
                    1
                };
                lhs.wrapping_sub(operand).wrapping_sub(borrow)
            }
        } else if opcode == 7 {
            if set_flags {
                self.sub_with_flags(operand, lhs, carry_in)
            } else {
                let borrow: u32 = if carry_in {
                    0
                } else {
                    1
                };
                operand.wrapping_sub(lhs).wrapping_sub(borrow)
            }
        } else if opcode == 12 {
            lhs | operand
        } else if opcode == 13 {
            operand
        } else if opcode == 14 {
            lhs & !operand
        } else {
            !operand
        }
    }

    #[verifier::spinoff_prover]
    #[verifier::rlimit(100)]
    fn arm_data_processing(&mut self, op: u32)
        ensures
            data_processing_done(&*old(self), &*final(self), op),
            final(self).halted == old(self).halted,
            final(self).intr_wait == old(self).intr_wait,
    {
        let immediate = op & 0x0200_0000 != 0;
        let set_flags = op & 0x0010_0000 != 0;
        proof {
            lemma_and_le_u32(op >> 21u32, 0xf);
        }
        let opcode = (op >> 21u32) & 0xf;
        let rn = reg_field(op, 16);
        let rd = reg_field(op, 12);
        let (operand, carry) = self.arm_operand(op);
        let lhs = if rn == 15 && !immediate && op & 0x10 != 0 {
            self.r[15].wrapping_add(4)
        } else {
            self.r[rn]
        };
        // TSTP/TEQP/CMPP/CMNP: with S set and r15 as destination these copy
        // SPSR into CPSR rather than comparing.
        if set_flags && rd == 15 && 8 <= opcode && opcode <= 11 {
            if self.mode != MODE_USR && self.mode != MODE_SYS {
                let spsr = self.spsr;
                self.set_cpsr(spsr, true);
            }
            return;
        }
        let result = self.alu_operation(opcode, lhs, operand, set_flags);
        let logical = opcode == 0 || opcode == 1 || opcode == 8 || opcode == 9 || opcode >= 12;
        let writes = !(8 <= opcode && opcode <= 11);
        if set_flags && logical {
            self.c = carry;
        }
        if !writes {
            if set_flags && logical {
                self.set_nz(result);
            }
            return;
        }
        if rd == 15 {
            if set_flags {
                let spsr = self.spsr;
                self.set_cpsr(spsr, true);
            }
            if self.thumb {
                self.set_pc(result & !1u32);
            } else {
                self.set_pc(result & !3u32);
            }
        } else {
            self.r[rd] = result;
            // The arithmetic opcodes already wrote N and Z through their helpers.
            if set_flags && logical {
                self.set_nz(result);
            }
        }
    }

    /// MRS reads a status register; MSR writes the fields its mask selects
    /// (user mode may only touch the flags).
    fn arm_psr_transfer(&mut self, op: u32)
        ensures
            psr_transfer_done(&*old(self), &*final(self), op),
    {
        let spsr = op & 0x0040_0000 != 0;
        if op & 0x0020_0000 == 0 {
            // MRS
            let rd = reg_field(op, 12);
            self.r[rd] = if spsr {
                self.spsr
            } else {
                self.cpsr()
            };
            return;
        }
        // MSR
        let value = if op & 0x0200_0000 != 0 {
            proof {
                lemma_and_le_u32(op >> 8u32, 0xf);
            }
            ror(op & 0xff, ((op >> 8u32) & 0xf) * 2)
        } else {
            proof {
                lemma_and_le_u32(op, 0xf);
            }
            self.r[(op & 0xf) as usize]
        };
        let fields = (op >> 16u32) & 0xf;
        let mut mask: u32 = (if fields & 1 != 0 {
            0x0000_00ffu32
        } else {
            0
        }) | (if fields & 2 != 0 {
            0x0000_ff00u32
        } else {
            0
        }) | (if fields & 4 != 0 {
            0x00ff_0000u32
        } else {
            0
        }) | (if fields & 8 != 0 {
            0xff00_0000u32
        } else {
            0
        });
        if spsr {
            self.spsr = (self.spsr & !mask) | (value & mask);
        } else {
            if self.mode == MODE_USR {
                mask = mask & 0xf000_0000;
            }
            let updated = (self.cpsr() & !mask) | (value & mask);
            self.set_cpsr(updated, mask & 0xff != 0);
        }
    }

    fn arm_multiply(&mut self, op: u32)
        ensures
            multiply_done(&*old(self), &*final(self), op),
    {
        let rd = reg_field(op, 16);
        let rn = reg_field(op, 12);
        let rs = reg_field(op, 8);
        proof {
            lemma_and_le_u32(op, 0xf);
        }
        let rm = (op & 0xf) as usize;
        let mut result = self.r[rm].wrapping_mul(self.r[rs]);
        proof {
            vstd::arithmetic::div_mod::lemma_mod_bound((self.r[rm as int] * self.r[rs as int]) as int, 0x1_0000_0000);
        }
        if op & 0x0020_0000 != 0 {
            let ghost before = result;
            result = result.wrapping_add(self.r[rn]);
            proof {
                lemma_wrapped_sum((self.r[rm as int] * self.r[rs as int]) as int, before, self.r[rn as int]);
            }
        }
        self.r[rd] = result;
        if op & 0x0010_0000 != 0 {
            self.set_nz(result);
        }
    }

    fn arm_multiply_long(&mut self, op: u32)
        ensures
            multiply_long_done(&*old(self), &*final(self), op),
    {
        let rd_high = reg_field(op, 16);
        let rd_low = reg_field(op, 12);
        let rs = reg_field(op, 8);
        proof {
            lemma_and_le_u32(op, 0xf);
        }
        let rm = (op & 0xf) as usize;
        let signed = op & 0x0040_0000 != 0;
        let accumulate = op & 0x0020_0000 != 0;
        let mut result: u64 = if signed {
            let a = self.r[rm] as i32 as i64;
            let b = self.r[rs] as i32 as i64;
            proof {
                assert(-0x8000_0000 <= a <= 0x7fff_ffff && -0x8000_0000 <= b <= 0x7fff_ffff);
                assert(-0x4000_0000_0000_0000 <= a * b <= 0x4000_0000_0000_0000) by (nonlinear_arith)
                    requires
                        -0x8000_0000 <= a <= 0x7fff_ffff,
                        -0x8000_0000 <= b <= 0x7fff_ffff,
                ;
            }
            (a * b) as u64
        } else {
            let a = self.r[rm] as u64;
            let b = self.r[rs] as u64;
            proof {
                assert(a * b <= 0xffff_fffe_0000_0001) by (nonlinear_arith)
                    requires
                        a <= 0xffff_ffff,
                        b <= 0xffff_ffff,
                ;
            }
            a * b
        };
        if accumulate {
            let accumulated = (self.r[rd_low] as u64) | ((self.r[rd_high] as u64) << 32u64);
            result = result.wrapping_add(accumulated);
        }
        self.r[rd_low] = result as u32;
        self.r[rd_high] = (result >> 32u64) as u32;
        if op & 0x0010_0000 != 0 {
            proof {
                super::lemma_word_bits(0, 0, 0, 0, result);
            }
            self.n = result & 0x8000_0000_0000_0000 != 0;
            self.z = result == 0;
        }
    }

    /// SWP and SWPB: the old memory value lands in rd.
    fn arm_swap(&mut self, bus: &mut Bus, op: u32)
        requires
            old(bus).wf(),
        ensures
            final(bus).wf(),
            forall|i: int|
                0 <= i < 16 && i != reg_at(op, 12) ==> #[trigger] final(self).r[i] == old(self).r[i],
            *final(self) == (Cpu { r: final(self).r, ..*old(self) }),
            swap_done(&*old(self), &*final(self), &*old(bus), &*final(bus), op),
    {
        let rn = reg_field(op, 16);
        let rd = reg_field(op, 12);
        proof {
            lemma_and_le_u32(op, 0xf);
        }
        let rm = (op & 0xf) as usize;
        let address = self.r[rn];
        if op & 0x0040_0000 != 0 {
            let loaded = bus.read8(address);
            let ghost mid = *bus;
            let previous = loaded as u32;
            bus.write8(address, self.r[rm] as u8);
            self.r[rd] = previous;
            proof {
                assert(self.r@ =~= old(self).r@.update(rd as int, loaded as u32));
                assert(read8_done(&*old(bus), address, loaded, &mid) && write8_done(
                    &mid,
                    address,
                    old(self).r[rm as int] as u8,
                    &*bus,
                ));
            }
        } else {
            let word = bus.read32(address);
            let ghost mid = *bus;
            proof {
                lemma_and_le_u32(address, 3);
            }
            let previous = ror(word, (address & 3) * 8);
            bus.write32(address, self.r[rm]);
            self.r[rd] = previous;
            proof {
                assert(self.r@ =~= old(self).r@.update(
                    rd as int,
                    ror_spec(word, ((address & 3) * 8) as u32),
                ));
                assert(read32_done(&*old(bus), address, word, &mid) && write32_done(
                    &mid,
                    address,
                    old(self).r[rm as int],
                    &*bus,
                ));
            }
        }
    }

    /// LDRH, LDRSB, LDRSH and STRH.
    #[verifier::spinoff_prover]
    #[verifier::rlimit(100)]
    fn arm_halfword_transfer(&mut self, bus: &mut Bus, op: u32)
        requires
            old(bus).wf(),
        ensures
            final(bus).wf(),
            halfword_transfer_done(&*old(self), &*final(self), &*old(bus), &*final(bus), op),
    {
        let pre = op & 0x0100_0000 != 0;
        let up = op & 0x0080_0000 != 0;
        let immediate = op & 0x0040_0000 != 0;
        let writeback = op & 0x0020_0000 != 0;
        let load = op & 0x0010_0000 != 0;
        let rn = reg_field(op, 16);
        let rd = reg_field(op, 12);
        proof {
            lemma_and_le_u32(op, 0xf);
        }
        let offset = if immediate {
            ((op >> 4u32) & 0xf0) | (op & 0xf)
        } else {
            self.r[(op & 0xf) as usize]
        };
        let base = self.r[rn];
        let offset_address = if up {
            base.wrapping_add(offset)
        } else {
            base.wrapping_sub(offset)
        };
        let address = if pre {
            offset_address
        } else {
            base
        };
        assert(rn == reg_at(op, 16) && rd == reg_at(op, 12));
        if load {
            let kind = (op >> 5u32) & 3;
            let ghost mut byte_read: u8 = 0;
            let ghost mut half_read: u16 = 0;
            let value = if kind == 1 {
                let loaded = bus.read16(address);
                proof {
                    half_read = loaded;
                }
                let half = loaded as u32;
                if address & 1 != 0 {
                    ror(half, 8)
                } else {
                    half
                }
            } else if kind == 2 {
                let loaded = bus.read8(address);
                proof {
                    byte_read = loaded;
                }
                loaded as i8 as i32 as u32
            } else {
                // A misaligned LDRSH reads a signed byte instead.
                if address & 1 != 0 {
                    let loaded = bus.read8(address);
                    proof {
                        byte_read = loaded;
                    }
                    loaded as i8 as i32 as u32
                } else {
                    let loaded = bus.read16(address);
                    proof {
                        half_read = loaded;
                    }
                    loaded as i16 as i32 as u32
                }
            };
            let ghost based = if writeback || !pre {
                old(self).r@.update(rn as int, offset_address)
            } else {
                old(self).r@
            };
            if writeback || !pre {
                self.r[rn] = offset_address;
            }
            if rd == 15 {
                self.set_pc(value & !3u32);
            } else {
                self.r[rd] = value;
            }
            assert(self.r@ =~= loaded_registers(based, rd as int, value));
            assert(kind == 1 ==> read16_done(&*old(bus), address, half_read, &*bus) && value == if address
                & 1 != 0 {
                ror_spec(half_read as u32, 8)
            } else {
                half_read as u32
            });
            assert((kind == 2 || (kind != 1 && address & 1 != 0)) ==> read8_done(
                &*old(bus),
                address,
                byte_read,
                &*bus,
            ) && value == byte_read as i8 as i32 as u32);
            assert(kind != 1 && kind != 2 && address & 1 == 0 ==> read16_done(
                &*old(bus),
                address,
                half_read,
                &*bus,
            ) && value == half_read as i16 as i32 as u32);
            assert(halfword_load_done(self.r@, &*old(bus), &*bus, kind, address, based, rd as int));
        } else {
            let value = if rd == 15 {
                self.r[15].wrapping_add(4)
            } else {
                self.r[rd]
            };
            bus.write16(address, value as u16);
            if writeback || !pre {
                self.r[rn] = offset_address;
            }
        }
    }

    /// LDR, LDRB, STR and STRB. A misaligned word load rotates the word.
    #[verifier::spinoff_prover]
    #[verifier::rlimit(100)]
    fn arm_single_transfer(&mut self, bus: &mut Bus, op: u32)
        requires
            old(bus).wf(),
        ensures
            final(bus).wf(),
            single_transfer_done(&*old(self), &*final(self), &*old(bus), &*final(bus), op),
    {
        let register_offset = op & 0x0200_0000 != 0;
        let pre = op & 0x0100_0000 != 0;
        let up = op & 0x0080_0000 != 0;
        let byte = op & 0x0040_0000 != 0;
        let writeback = op & 0x0020_0000 != 0;
        let load = op & 0x0010_0000 != 0;
        let rn = reg_field(op, 16);
        let rd = reg_field(op, 12);
        let offset = if register_offset {
            let mut carry = self.c;
            let kind = (op >> 5u32) & 3;
            let amount = (op >> 7u32) & 0x1f;
            proof {
                lemma_and_le_u32(op, 0xf);
            }
            shift(kind, self.r[(op & 0xf) as usize], amount, true, &mut carry)
        } else {
            op & 0xfff
        };
        let base = self.r[rn];
        let offset_address = if up {
            base.wrapping_add(offset)
        } else {
            base.wrapping_sub(offset)
        };
        let address = if pre {
            offset_address
        } else {
            base
        };
        assert(offset == if op & 0x0200_0000 != 0 {
            shift_spec(
                (op >> 5u32) & 3,
                old(self).r[(op & 0xf) as int],
                (op >> 7u32) & 0x1f,
                true,
                old(self).c,
            ).0
        } else {
            op & 0xfff
        });
        assert(rn == reg_at(op, 16) && rd == reg_at(op, 12));
        if load {
            let ghost mut read: u32 = 0;
            let value = if byte {
                let loaded = bus.read8(address);
                assert(read8_done(&*old(bus), address, loaded, &*bus));
                loaded as u32
            } else {
                let word = bus.read32(address);
                proof {
                    lemma_and_le_u32(address, 3);
                    read = word;
                }
                assert(read32_done(&*old(bus), address, word, &*bus));
                ror(word, (address & 3) * 8)
            };
            let ghost based = if (writeback || !pre) && rn != rd {
                old(self).r@.update(rn as int, offset_address)
            } else {
                old(self).r@
            };
            if (writeback || !pre) && rn != rd {
                self.r[rn] = offset_address;
            }
            if rd == 15 {
                self.set_pc(value & !3u32);
            } else {
                self.r[rd] = value;
            }
            assert(self.r@ =~= loaded_registers(based, rd as int, value));
            assert(byte ==> value == (value as u8) as u32);
            assert(!byte ==> value == ror_spec(read, ((address & 3) * 8) as u32));
            assert(load_done(self.r@, &*old(bus), &*bus, byte, address, based, rd as int));
        } else {
            let value = if rd == 15 {
                self.r[15].wrapping_add(4)
            } else {
                self.r[rd]
            };
            if byte {
                bus.write8(address, value as u8);
            } else {
                bus.write32(address, value);
            }
            if writeback || !pre {
                self.r[rn] = offset_address;
            }
        }
    }

    /// LDM and STM. An empty list transfers r15 alone and moves the base by
    /// 0x40; a stored base reads back as the updated value unless it is the
    /// first register in the list.
    #[verifier::spinoff_prover]
    #[verifier::rlimit(100)]
    fn arm_block_transfer(&mut self, bus: &mut Bus, op: u32)
        requires
            old(bus).wf(),
        ensures
            final(bus).wf(),
            op & 0x0010_0000 == 0 ==> exists|chain: Seq<Bus>|
                #[trigger] block_stores(chain, &*old(self), &*final(self), &*old(bus), &*final(bus), op),
            op & 0x0010_0000 != 0 && op & 0x0040_0000 == 0 ==> exists|chain: Seq<Bus>, words: Seq<u32>|
                #[trigger] block_loads(
                    chain,
                    words,
                    &*old(self),
                    &*final(self),
                    &*old(bus),
                    &*final(bus),
                    op,
                ),
    {
        let user_bank = op & 0x0040_0000 != 0;
        let writeback = op & 0x0020_0000 != 0;
        let load = op & 0x0010_0000 != 0;
        let rn = reg_field(op, 16);
        let (list, address, final_base) = Self::block_layout(self.r[rn], op);
        proof {
            lemma_list_bits(list, 15, 0, 0, 0);
            lemma_list_bits(list, rn as u32, 0, 0, 0);
        }
        let transfer_pc = list & 0x8000 != 0;
        let swap_bank = user_bank && !(load && transfer_pc);
        let ghost mut chain: Seq<Bus> = Seq::empty();
        let ghost mut words: Seq<u32> = Seq::empty();
        let ghost mut after_transfer = *self;
        if load {
            self.load_block(bus, list, address, swap_bank);
            proof {
                after_transfer = *self;
                if !user_bank {
                    let (c, w) = choose|c: Seq<Bus>, w: Seq<u32>|
                        #[trigger] block_loaded(c, w, &*old(self), &after_transfer, &*old(bus), &*bus, list, address);
                    chain = c;
                    words = w;
                }
            }
        } else {
            // A stored base reads back as the updated value unless it comes first.
            if writeback && rn != list.trailing_zeros() as usize {
                self.r[rn] = final_base;
            }
            let ghost start = *self;
            assert(forall|i: int|
                0 <= i < 16 ==> #[trigger] start.r[i] == if i == rn && writeback && rn
                    != list.trailing_zeros() {
                    final_base
                } else {
                    old(self).r[i]
                });
            assert(start == (Cpu { r: start.r, ..*old(self) }));
            self.store_block(bus, list, address, swap_bank);
            proof {
                after_transfer = start;
                let c = choose|c: Seq<Bus>|
                    #[trigger] block_stored(c, &*old(bus), &*bus, list, address, &start, swap_bank);
                chain = c;
            }
        }
        if writeback && (!load || list & (1u32 << rn as u32) == 0) {
            self.r[rn] = final_base;
        }
        if load && transfer_pc && user_bank {
            let spsr = self.spsr;
            self.set_cpsr(spsr, true);
            let pc = self.r[15];
            if self.thumb {
                self.set_pc(pc & !1u32);
            } else {
                self.set_pc(pc & !3u32);
            }
        }
        proof {
            if !load {
                if writeback {
                    assert(self.r@ =~= old(self).r@.update(rn as int, final_base));
                } else {
                    assert(self.r@ =~= old(self).r@);
                }
                lemma_block_stores(chain, &*old(self), &after_transfer, &*self, &*old(bus), &*bus, op);
            } else if !user_bank {
                if writeback && list & (1u32 << rn as u32) == 0 {
                    assert(self.r@ =~= after_transfer.r@.update(rn as int, final_base));
                } else {
                    assert(self.r@ =~= after_transfer.r@);
                }
                lemma_block_loads(chain, words, &*old(self), &after_transfer, &*self, &*old(bus), &*bus, op);
            }
        }
    }

    /// The register list, the first word's address and the written-back base
    /// of a block transfer from `base`.
    fn block_layout(base: u32, op: u32) -> (layout: (u32, u32, u32))
        ensures
            layout.0 == block_list(op),
            layout.0 <= 0xffff,
            layout.1 == block_start(base, op),
            layout.2 == block_final_base(base, op),
    {
        let pre = op & 0x0100_0000 != 0;
        let up = op & 0x0080_0000 != 0;
        let mut list = op & 0xffff;
        // An empty list transfers r15 alone and moves the base by 0x40.
        let empty = list == 0;
        if empty {
            list = 0x8000;
        }
        proof {
            lemma_and_le_u32(op, 0xffff);
        }
        let count = count_registers(list);
        let width: u32 = if empty {
            0x40
        } else {
            count * 4
        };
        let mut address = if up {
            base
        } else {
            base.wrapping_sub(width)
        };
        let final_base = if up {
            base.wrapping_add(width)
        } else {
            base.wrapping_sub(width)
        };
        if up == pre {
            address = address.wrapping_add(4);
        }
        (list, address & !3u32, final_base)
    }

    /// Stores the listed registers in ascending order to ascending words
    /// from `first`; with `user` the user bank's registers are stored.
    fn store_block(&self, bus: &mut Bus, list: u32, first: u32, user: bool)
        requires
            old(bus).wf(),
            list <= 0xffff,
        ensures
            final(bus).wf(),
            exists|chain: Seq<Bus>|
                #[trigger] block_stored(chain, &*old(bus), &*final(bus), list, first, self, user),
    {
        let ghost mut chain: Seq<Bus> = seq![*bus];
        let mut address = first;
        proof {
            vstd::arithmetic::div_mod::lemma_small_mod(first as nat, 0x1_0000_0000nat);
        }
        let mut register: usize = 0;
        while register < 16
            invariant
                bus.wf(),
                register <= 16,
                list <= 0xffff,
                address == slot_address(first, register_count(list as u16, register as int)),
                chain.len() == register_count(list as u16, register as int) + 1,
                chain[0] == *old(bus),
                chain.last() == *bus,
                forall|i: int|
                    0 <= i < register && listed(list, i) ==> #[trigger] write32_done(
                        &chain[register_count(list as u16, i)],
                        slot_address(first, register_count(list as u16, i)),
                        word_to_store(self, i, user),
                        &chain[register_count(list as u16, i) + 1],
                    ),
            decreases 16 - register,
        {
            proof {
                lemma_list_bits(list, register as u32, 0, 0, 0);
                lemma_register_count_step(list as u16, register as int);
                assert forall|i: int| 0 <= i < register && listed(list, i) implies 0
                    <= #[trigger] register_count(list as u16, i) && register_count(list as u16, i) + 1
                    <= register_count(list as u16, register as int) by {
                    lemma_register_count_monotone(list as u16, i, register as int);
                }
            }
            if list & (1u32 << register as u32) != 0 {
                let value = if register == 15 {
                    self.r[15].wrapping_add(4)
                } else if user {
                    self.user_reg(register)
                } else {
                    self.r[register]
                };
                let ghost before = chain;
                bus.write32(address, value);
                proof {
                    chain = chain.push(*bus);
                    assert forall|i: int| 0 <= i <= register && listed(list, i) implies #[trigger] write32_done(
                        &chain[register_count(list as u16, i)],
                        slot_address(first, register_count(list as u16, i)),
                        word_to_store(self, i, user),
                        &chain[register_count(list as u16, i) + 1],
                    ) by {
                        if i < register {
                            assert(chain[register_count(list as u16, i)] == before[register_count(
                                list as u16,
                                i,
                            )]);
                            assert(chain[register_count(list as u16, i) + 1]
                                == before[register_count(list as u16, i) + 1]);
                        }
                    }
                    lemma_slot_step(first, register_count(list as u16, register as int));
                }
                address = address.wrapping_add(4);
            }
            register = register + 1;
        }
        assert(block_stored(chain, &*old(bus), &*bus, list, first, self, user));
    }

    /// Loads the listed registers in ascending order from ascending words
    /// from `first`; with `user` the user bank's registers are loaded, else
    /// a loaded r15 branches.
    fn load_block(&mut self, bus: &mut Bus, list: u32, first: u32, user: bool)
        requires
            old(bus).wf(),
            list <= 0xffff,
        ensures
            final(bus).wf(),
            !user ==> exists|chain: Seq<Bus>, words: Seq<u32>|
                #[trigger] block_loaded(chain, words, &*old(self), &*final(self), &*old(bus), &*final(bus), list, first),
    {
        let ghost mut chain: Seq<Bus> = seq![*bus];
        let ghost mut words: Seq<u32> = Seq::empty();
        let mut address = first;
        proof {
            vstd::arithmetic::div_mod::lemma_small_mod(first as nat, 0x1_0000_0000nat);
        }
        let mut register: usize = 0;
        while register < 16
            invariant
                bus.wf(),
                register <= 16,
                list <= 0xffff,
                address == slot_address(first, register_count(list as u16, register as int)),
                chain.len() == register_count(list as u16, register as int) + 1,
                words.len() == register_count(list as u16, register as int),
                chain[0] == *old(bus),
                chain.last() == *bus,
                forall|i: int|
                    0 <= i < register && listed(list, i) ==> #[trigger] read32_done(
                        &chain[register_count(list as u16, i)],
                        slot_address(first, register_count(list as u16, i)),
                        words[register_count(list as u16, i)],
                        &chain[register_count(list as u16, i) + 1],
                    ),
                !user ==> forall|i: int|
                    0 <= i < 16 ==> #[trigger] self.r[i] == if i < register && listed(list, i) {
                        if i == 15 {
                            words[register_count(list as u16, i)] & !3u32
                        } else {
                            words[register_count(list as u16, i)]
                        }
                    } else {
                        old(self).r[i]
                    },
                !user ==> *self == (Cpu {
                    r: self.r,
                    flush: (register > 15 && listed(list, 15)) || old(self).flush,
                    ..*old(self)
                }),
            decreases 16 - register,
        {
            proof {
                lemma_list_bits(list, register as u32, 0, 0, 0);
                lemma_register_count_step(list as u16, register as int);
                assert forall|i: int| 0 <= i < register && listed(list, i) implies 0
                    <= #[trigger] register_count(list as u16, i) && register_count(list as u16, i) + 1
                    <= register_count(list as u16, register as int) by {
                    lemma_register_count_monotone(list as u16, i, register as int);
                }
            }
            if list & (1u32 << register as u32) != 0 {
                let ghost before = chain;
                let ghost before_words = words;
                let value = bus.read32(address);
                proof {
                    chain = chain.push(*bus);
                    words = words.push(value);
                    assert forall|i: int| 0 <= i <= register && listed(list, i) implies #[trigger] read32_done(
                        &chain[register_count(list as u16, i)],
                        slot_address(first, register_count(list as u16, i)),
                        words[register_count(list as u16, i)],
                        &chain[register_count(list as u16, i) + 1],
                    ) by {
                        if i < register {
                            assert(chain[register_count(list as u16, i)] == before[register_count(
                                list as u16,
                                i,
                            )]);
                            assert(chain[register_count(list as u16, i) + 1]
                                == before[register_count(list as u16, i) + 1]);
                            assert(words[register_count(list as u16, i)]
                                == before_words[register_count(list as u16, i)]);
                        }
                    }
                    lemma_slot_step(first, register_count(list as u16, register as int));
                }
                if user {
                    self.set_user_reg(register, value);
                } else if register == 15 {
                    self.set_pc(value & !3u32);
                } else {
                    self.r[register] = value;
                }
                proof {
                    assert forall|i: int| 0 <= i < register && listed(list, i) implies words[register_count(list as u16, i)]
                        == before_words[register_count(list as u16, i)] by {}
                }
                address = address.wrapping_add(4);
            }
            register = register + 1;
        }
        if !user {
            assert(block_loaded(chain, words, &*old(self), &*self, &*old(bus), &*bus, list, first));
        }
    }
}

/// Bit facts about register lists and Thumb register fields.
pub(super) proof fn lemma_list_bits(list: u32, index: u32, op: u32, short: u16, k: u16)
    by (bit_vector)
    ensures
        list <= 0xffff && index < 16 ==> ((list >> index) & 1 == 1) == (((list as u16) >> (
        index as u16)) & 1 == 1),
        list <= 0xffff && index < 16 ==> (list & (1u32 << index) != 0) == (((list as u16) >> (
        index as u16)) & 1 == 1),
        list <= 0xffff ==> (list & 0x8000 != 0) == (((list as u16) >> 15u16) & 1 == 1),
        short <= 0xff && 8 <= k < 16 ==> (short >> k) & 1 == 0,
        (op & 7) | ((op >> 4u32) & 8) <= 15,
        ((op & 0xff) as u16) as u32 == op & 0xff,
{
}

/// How many of the low `width` bits of a register list are set.
pub open spec fn register_count(list: u16, width: int) -> int
    decreases width,
{
    if width <= 0 {
        0
    } else {
        register_count(list, width - 1) + if (list >> ((width - 1) as u16)) & 1 == 1 {
            1int
        } else {
            0int
        }
    }
}

/// The words STM stores, read from the processor as the stores begin, are
/// the words `stored_word` names from the processor before the base was
/// written back.
proof fn lemma_store_words(a: &Cpu, start: &Cpu, op: u32)
    requires
        forall|i: int|
            0 <= i < 16 ==> #[trigger] start.r[i] == if i == reg_at(op, 16) && op & 0x0020_0000
                != 0 && reg_at(op, 16) != block_list(op).trailing_zeros() {
                block_final_base(a.r[reg_at(op, 16)], op)
            } else {
                a.r[i]
            },
        *start == (Cpu { r: start.r, ..*a }),
    ensures
        forall|i: int|
            0 <= i < 16 ==> word_to_store(start, i, op & 0x0040_0000 != 0) == #[trigger] stored_word(
                a,
                op,
                i,
            ),
{
}

/// STM, as the store loop and the write-back leave it.
proof fn lemma_block_stores(chain: Seq<Bus>, a: &Cpu, start: &Cpu, b: &Cpu, bus: &Bus, after: &Bus, op: u32)
    requires
        block_stored(
            chain,
            bus,
            after,
            block_list(op),
            block_start(a.r[reg_at(op, 16)], op),
            start,
            op & 0x0040_0000 != 0,
        ),
        forall|i: int|
            0 <= i < 16 ==> #[trigger] start.r[i] == if i == reg_at(op, 16) && op & 0x0020_0000
                != 0 && reg_at(op, 16) != block_list(op).trailing_zeros() {
                block_final_base(a.r[reg_at(op, 16)], op)
            } else {
                a.r[i]
            },
        *start == (Cpu { r: start.r, ..*a }),
        b.r@ == (if op & 0x0020_0000 != 0 {
            a.r@.update(reg_at(op, 16), block_final_base(a.r[reg_at(op, 16)], op))
        } else {
            a.r@
        }),
        *b == (Cpu { r: b.r, ..*a }),
    ensures
        block_stores(chain, a, b, bus, after, op),
{
    lemma_store_words(a, start, op);
    let list = block_list(op);
    let first = block_start(a.r[reg_at(op, 16)], op);
    assert forall|i: int| 0 <= i < 16 && listed(list, i) implies #[trigger] write32_done(
        &chain[register_count(list as u16, i)],
        slot_address(first, register_count(list as u16, i)),
        stored_word(a, op, i),
        &chain[register_count(list as u16, i) + 1],
    ) by {
        assert(word_to_store(start, i, op & 0x0040_0000 != 0) == stored_word(a, op, i));
    }
}

/// LDM without the S bit, as the load loop and the write-back leave it.
proof fn lemma_block_loads(
    chain: Seq<Bus>,
    words: Seq<u32>,
    a: &Cpu,
    mid: &Cpu,
    b: &Cpu,
    bus: &Bus,
    after: &Bus,
    op: u32,
)
    requires
        block_loaded(chain, words, a, mid, bus, after, block_list(op), block_start(a.r[reg_at(op, 16)], op)),
        b.r@ == if op & 0x0020_0000 != 0 && !listed(block_list(op), reg_at(op, 16)) {
            mid.r@.update(reg_at(op, 16), block_final_base(a.r[reg_at(op, 16)], op))
        } else {
            mid.r@
        },
        *b == (Cpu { r: b.r, ..*mid }),
        0 <= reg_at(op, 16) < 16,
    ensures
        block_loads(chain, words, a, b, bus, after, op),
{
}

/// One more register position counts one more register exactly when it
/// is listed.
pub(super) proof fn lemma_register_count_step(list: u16, register: int)
    requires
        0 <= register,
    ensures
        register_count(list, register + 1) == register_count(list, register) + if (list >> (
        register as u16)) & 1 == 1 {
            1int
        } else {
            0int
        },
        0 <= register_count(list, register) <= register,
{
    lemma_register_count_bound(list, register);
}

/// A listed register comes before every register counted after it.
proof fn lemma_register_count_monotone(list: u16, i: int, j: int)
    requires
        0 <= i < j,
    ensures
        0 <= register_count(list, i),
        register_count(list, i) + (if (list >> (i as u16)) & 1 == 1 {
            1int
        } else {
            0int
        }) <= register_count(list, j),
    decreases j - i,
{
    lemma_register_count_bound(list, i);
    if j > i + 1 {
        lemma_register_count_monotone(list, i, j - 1);
    }
}

/// The next word of a block is four bytes on, wrapping at the top of the
/// address space.
proof fn lemma_slot_step(start: u32, slot: int)
    requires
        0 <= slot,
    ensures
        slot_address(start, slot).wrapping_add(4) == slot_address(start, slot + 1),
{
    let m = 0x1_0000_0000int;
    vstd::arithmetic::div_mod::lemma_add_mod_noop(start + 4 * slot, 4, m);
    let x = (start + 4 * slot) % m;
    assert(0 <= x < m) by {
        vstd::arithmetic::div_mod::lemma_mod_bound(start + 4 * slot, m);
    }
    if x + 4 >= m {
        assert((x + 4) % m == x + 4 - m) by {
            vstd::arithmetic::div_mod::lemma_small_mod((x + 4 - m) as nat, m as nat);
            vstd::arithmetic::div_mod::lemma_mod_add_multiples_vanish(x + 4 - m, m);
        }
    } else {
        vstd::arithmetic::div_mod::lemma_small_mod((x + 4) as nat, m as nat);
    }
}

pub(super) proof fn lemma_register_count_bound(list: u16, width: int)
    requires
        0 <= width,
    ensures
        0 <= register_count(list, width) <= width,
    decreases width,
{
    if width > 0 {
        lemma_register_count_bound(list, width - 1);
    }
}

/// The number of registers a list names.
pub(super) fn count_registers(list: u32) -> (count: u32)
    requires
        list <= 0xffff,
    ensures
        count == register_count(list as u16, 16),
        count <= 16,
{
    let mut count: u32 = 0;
    let mut index: u32 = 0;
    while index < 16
        invariant
            index <= 16,
            list <= 0xffff,
            count == register_count(list as u16, index as int),
            count <= index,
        decreases 16 - index,
    {
        proof {
            let l = list as u16;
            lemma_list_bits(list, index, 0, 0, 0);
        }
        if (list >> index) & 1 == 1 {
            count = count + 1;
        }
        index = index + 1;
    }
    count
}

proof fn lemma_wrapping_matches(lhs: u32, operand: u32, carry: bool)
    ensures
        lhs.wrapping_sub(operand) == sub_flags(lhs, operand, true).0,
        operand.wrapping_sub(lhs) == sub_flags(operand, lhs, true).0,
        lhs.wrapping_add(operand) == add_flags(lhs, operand, false).0,
        lhs.wrapping_add(operand).wrapping_add(if carry {
            1u32
        } else {
            0u32
        }) == add_flags(lhs, operand, carry).0,
        lhs.wrapping_sub(operand).wrapping_sub(if carry {
            0u32
        } else {
            1u32
        }) == sub_flags(lhs, operand, carry).0,
        operand.wrapping_sub(lhs).wrapping_sub(if carry {
            0u32
        } else {
            1u32
        }) == sub_flags(operand, lhs, carry).0,
{
}

proof fn lemma_wrapped_sum(product: int, low: u32, addend: u32)
    requires
        low == product % 0x1_0000_0000,
        product >= 0,
    ensures
        low.wrapping_add(addend) == ((product + addend) % 0x1_0000_0000) as u32,
{
    vstd::arithmetic::div_mod::lemma_add_mod_noop(product, addend as int, 0x1_0000_0000);
    vstd::arithmetic::div_mod::lemma_mod_bound(product, 0x1_0000_0000);
}

} // verus!
