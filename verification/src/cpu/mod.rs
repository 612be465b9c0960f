//! ARM7TDMI core: register banks, exceptions and the fetch/execute loop.

pub mod arm;
pub mod thumb;

use crate::bits::lemma_and_le_u32;
use crate::bus::Bus;
use crate::state::{
    bool_byte, from_le16, from_le32, le16, le32, option16_bytes, Reader, Snapshot, StateError, Writer,
};
use vstd::prelude::*;

verus! {

pub const MODE_USR: u32 = 0x10;

pub const MODE_FIQ: u32 = 0x11;

pub const MODE_IRQ: u32 = 0x12;

pub const MODE_SVC: u32 = 0x13;

pub const MODE_ABT: u32 = 0x17;

pub const MODE_UND: u32 = 0x1b;

pub const MODE_SYS: u32 = 0x1f;

/// Register bank of a mode. User and system share bank zero, and so does
/// any value that names no mode.
pub open spec fn bank_index(mode: u32) -> int {
    if mode == MODE_FIQ {
        1
    } else if mode == MODE_IRQ {
        2
    } else if mode == MODE_SVC {
        3
    } else if mode == MODE_ABT {
        4
    } else if mode == MODE_UND {
        5
    } else {
        0
    }
}

/// The mode a requested mode value selects: a value that is neither a
/// banked mode nor user mode runs as system mode.
pub open spec fn effective_mode(mode: u32) -> u32 {
    if bank_index(mode) == 0 && mode != MODE_USR {
        MODE_SYS
    } else {
        mode
    }
}

fn bank_of(mode: u32) -> (bank: usize)
    ensures
        bank == bank_index(mode),
        bank < 6,
{
    if mode == MODE_FIQ {
        1
    } else if mode == MODE_IRQ {
        2
    } else if mode == MODE_SVC {
        3
    } else if mode == MODE_ABT {
        4
    } else if mode == MODE_UND {
        5
    } else {
        0
    }
}

/// `position`'s bit when `set`, else nothing.
pub open spec fn flag_bit(set: bool, position: u32) -> u32 {
    if set {
        1u32 << position
    } else {
        0u32
    }
}

/// The four bit register number at `position` of an instruction.
pub open spec fn reg_at(op: u32, position: u32) -> int {
    ((op >> position) & 0xf) as int
}

fn reg_field(op: u32, position: u32) -> (index: usize)
    requires
        position < 32,
    ensures
        index == reg_at(op, position),
        index < 16,
{
    proof {
        lemma_and_le_u32(op >> position, 0xf);
    }
    ((op >> position) & 0xf) as usize
}

/// Bit `index` of a word.
pub open spec fn bit_of(value: u32, index: u32) -> bool {
    (value >> index) & 1 == 1
}

#[derive(Clone, Copy)]
pub struct Cpu {
    pub r: [u32; 16],
    pub n: bool,
    pub z: bool,
    pub c: bool,
    pub v: bool,
    pub irq_disable: bool,
    pub fiq_disable: bool,
    pub thumb: bool,
    pub mode: u32,
    pub spsr: u32,
    /// The saved status register of every bank; bank zero has none of its
    /// own and keeps whatever was last switched out.
    pub spsr_bank: [u32; 6],
    /// r13 and r14 of every bank; index 0 is shared by user and system.
    pub banked_sp: [u32; 6],
    pub banked_lr: [u32; 6],
    /// r8-r12 saved while running in FIQ mode, and the FIQ copies themselves.
    pub usr_r8_12: [u32; 5],
    pub fiq_r8_12: [u32; 5],
    pub halted: bool,
    /// Flags an HLE `IntrWait`/`VBlankIntrWait` is blocked on.
    pub intr_wait: Option<u16>,
    /// Set by anything that writes r15 so the pipeline is reloaded.
    pub flush: bool,
    /// Slot 0 runs next, slot 1 is one fetch ahead. Keeping both means code
    /// that overwrites the instruction behind itself still runs the old one.
    pub pipeline: [u32; 2],
}

/// Everything a mode switch touches: the visible registers, the banks
/// behind them, the saved status register and the mode itself.
pub struct BankedState {
    pub r: Seq<u32>,
    pub sp: Seq<u32>,
    pub lr: Seq<u32>,
    pub saved: Seq<u32>,
    pub spsr: u32,
    pub usr: Seq<u32>,
    pub fiq: Seq<u32>,
    pub mode: u32,
}

/// The banked state after switching to `requested`: r13, r14 and SPSR go to
/// the old mode's bank and come from the new one's, and r8-r12 trade places
/// with their FIQ copies on the way into or out of FIQ mode.
pub open spec fn switched(b: BankedState, requested: u32) -> BankedState {
    let mode = effective_mode(requested);
    if mode == b.mode {
        b
    } else {
        let from = bank_index(b.mode);
        let to = bank_index(mode);
        let sp = b.sp.update(from, b.r[13]);
        let lr = b.lr.update(from, b.r[14]);
        let saved = b.saved.update(from, b.spsr);
        let leaving_fiq = from == 1 && to != 1;
        let entering_fiq = from != 1 && to == 1;
        let low = b.r.subrange(0, 8);
        let high = if leaving_fiq {
            b.usr
        } else if entering_fiq {
            b.fiq
        } else {
            b.r.subrange(8, 13)
        };
        BankedState {
            r: low + high + seq![sp[to], lr[to], b.r[15]],
            sp,
            lr,
            saved,
            spsr: saved[to],
            usr: if entering_fiq {
                b.r.subrange(8, 13)
            } else {
                b.usr
            },
            fiq: if leaving_fiq {
                b.r.subrange(8, 13)
            } else {
                b.fiq
            },
            mode,
        }
    }
}

/// The status register a set of flags and a mode encode to.
pub open spec fn cpsr_value(
    n: bool,
    z: bool,
    c: bool,
    v: bool,
    irq_disable: bool,
    fiq_disable: bool,
    thumb: bool,
    mode: u32,
) -> u32 {
    flag_bit(n, 31) | flag_bit(z, 30) | flag_bit(c, 29) | flag_bit(v, 28) | flag_bit(irq_disable, 7)
        | flag_bit(fiq_disable, 6) | flag_bit(thumb, 5) | mode
}

/// Whether a condition field lets an instruction run.
pub open spec fn condition_holds(condition: u32, n: bool, z: bool, c: bool, v: bool) -> bool {
    if condition == 0 {
        z
    } else if condition == 1 {
        !z
    } else if condition == 2 {
        c
    } else if condition == 3 {
        !c
    } else if condition == 4 {
        n
    } else if condition == 5 {
        !n
    } else if condition == 6 {
        v
    } else if condition == 7 {
        !v
    } else if condition == 8 {
        c && !z
    } else if condition == 9 {
        !c || z
    } else if condition == 10 {
        n == v
    } else if condition == 11 {
        n != v
    } else if condition == 12 {
        !z && n == v
    } else if condition == 13 {
        z || n != v
    } else {
        true
    }
}

/// The signed value of a word.
pub open spec fn signed(value: u32) -> int {
    if value >= 0x8000_0000 {
        value - 0x1_0000_0000
    } else {
        value as int
    }
}

/// A word rotated right; only the low five bits of the amount count.
pub open spec fn ror_spec(value: u32, amount: u32) -> u32 {
    let a = amount % 32;
    if a == 0 {
        value
    } else {
        (value >> a) | (value << ((32 - a) as u32))
    }
}

pub fn ror(value: u32, amount: u32) -> (rotated: u32)
    ensures
        rotated == ror_spec(value, amount),
{
    let a = amount % 32;
    if a == 0 {
        value
    } else {
        (value >> a) | (value << (32 - a))
    }
}

/// The barrel shifter: the shifted value and the carry that comes out.
/// An immediate amount of zero means LSR/ASR by 32 and RRX for ROR; a
/// register amount of zero leaves both value and carry alone.
pub open spec fn shift_spec(kind: u32, value: u32, amount: u32, immediate: bool, carry: bool) -> (
    u32,
    bool,
) {
    if kind == 0 {
        if amount == 0 {
            (value, carry)
        } else if amount < 32 {
            (value << amount, bit_of(value, (32 - amount) as u32))
        } else {
            (0, amount == 32 && bit_of(value, 0))
        }
    } else if kind == 1 {
        let a = if immediate && amount == 0 {
            32
        } else {
            amount
        };
        if a == 0 {
            (value, carry)
        } else if a < 32 {
            (value >> a, bit_of(value, (a - 1) as u32))
        } else {
            (0, a == 32 && bit_of(value, 31))
        }
    } else if kind == 2 {
        let a = if immediate && amount == 0 {
            32
        } else {
            amount
        };
        if a == 0 {
            (value, carry)
        } else if a < 32 {
            (((value as i32) >> a) as u32, bit_of(value, (a - 1) as u32))
        } else {
            (
                if bit_of(value, 31) {
                    0xffff_ffff
                } else {
                    0
                },
                bit_of(value, 31),
            )
        }
    } else {
        if amount == 0 {
            if immediate {
                (flag_bit(carry, 31) | (value >> 1), bit_of(value, 0))
            } else {
                (value, carry)
            }
        } else if amount % 32 == 0 {
            (value, bit_of(value, 31))
        } else {
            (ror_spec(value, amount), bit_of(value, ((amount % 32) - 1) as u32))
        }
    }
}

/// Bit facts the processor relies on.
pub(crate) proof fn lemma_word_bits(value: u32, index: u32, amount: u32, wide: u64, long: u64)
    by (bit_vector)
    ensures
        index < 32 ==> (value & (1u32 << index) != 0) == ((value >> index) & 1 == 1),
        (value & 1 != 0) == ((value >> 0u32) & 1 == 1),
        (value & 0x8000_0000 != 0) == ((value >> 31u32) & 1 == 1),
        1u32 << 31u32 == 0x8000_0000,
        amount & 31 == amount % 32,
        0x18u32 & !3u32 == 0x18,
        (value & 0x8000_0000 != 0) == (value >= 0x8000_0000),
        !value == 0xffff_ffff - value,
        (wide as u32) == (wide % 0x1_0000_0000) as u32,
        (long & 0x8000_0000_0000_0000 != 0) == (long >= 0x8000_0000_0000_0000),
{
}

proof fn lemma_bit_test(value: u32, index: u32)
    requires
        index < 32,
    ensures
        (value & (1u32 << index) != 0) == bit_of(value, index),
{
    lemma_word_bits(value, index, 0, 0, 0);
}

pub(crate) proof fn lemma_edge_bits(value: u32)
    ensures
        (value & 1 != 0) == bit_of(value, 0),
        (value & 0x8000_0000 != 0) == bit_of(value, 31),
        1u32 << 31u32 == 0x8000_0000,
{
    lemma_word_bits(value, 0, 0, 0, 0);
}

/// Barrel shifter. `carry` is the carry flag going in and coming out.
pub fn shift(kind: u32, value: u32, amount: u32, immediate: bool, carry: &mut bool) -> (result: u32)
    ensures
        (result, *final(carry)) == shift_spec(kind, value, amount, immediate, *old(carry)),
{
    if kind == 0 {
        // LSL
        if amount == 0 {
            value
        } else if amount < 32 {
            proof {
                lemma_bit_test(value, (32 - amount) as u32);
            }
            *carry = value & (1u32 << (32 - amount)) != 0;
            value << amount
        } else {
            proof {
                lemma_edge_bits(value);
            }
            *carry = amount == 32 && value & 1 != 0;
            0
        }
    } else if kind == 1 {
        // LSR; an immediate zero means 32.
        let amount = if immediate && amount == 0 {
            32
        } else {
            amount
        };
        if amount == 0 {
            value
        } else if amount < 32 {
            proof {
                lemma_bit_test(value, (amount - 1) as u32);
            }
            *carry = value & (1u32 << (amount - 1)) != 0;
            value >> amount
        } else {
            proof {
                lemma_edge_bits(value);
            }
            *carry = amount == 32 && value & 0x8000_0000 != 0;
            0
        }
    } else if kind == 2 {
        // ASR; an immediate zero means 32.
        let amount = if immediate && amount == 0 {
            32
        } else {
            amount
        };
        if amount == 0 {
            value
        } else if amount < 32 {
            proof {
                lemma_bit_test(value, (amount - 1) as u32);
            }
            *carry = value & (1u32 << (amount - 1)) != 0;
            ((value as i32) >> amount) as u32
        } else {
            proof {
                lemma_edge_bits(value);
            }
            *carry = value & 0x8000_0000 != 0;
            if *carry {
                0xffff_ffff
            } else {
                0
            }
        }
    } else {
        // ROR, or RRX when the immediate amount is zero.
        if amount == 0 {
            if immediate {
                proof {
                    lemma_edge_bits(value);
                }
                let top: u32 = if *carry {
                    0x8000_0000
                } else {
                    0
                };
                let result = top | (value >> 1);
                *carry = value & 1 != 0;
                result
            } else {
                value
            }
        } else if amount & 31 == 0 {
            proof {
                lemma_edge_bits(value);
                lemma_word_bits(value, 0, amount, 0, 0);
            }
            *carry = value & 0x8000_0000 != 0;
            value
        } else {
            let a = amount & 31;
            proof {
                lemma_word_bits(value, 0, amount, 0, 0);
                lemma_bit_test(value, (a - 1) as u32);
            }
            *carry = value & (1u32 << (a - 1)) != 0;
            ror(value, a)
        }
    }
}

/// The sum of two words and a carry, with the flags an ADD/ADC sets: carry
/// is unsigned overflow, overflow is signed overflow.
pub open spec fn add_flags(lhs: u32, rhs: u32, carry_in: bool) -> (u32, bool, bool) {
    let c: int = if carry_in {
        1
    } else {
        0
    };
    let total = lhs + rhs + c;
    let signed_total = signed(lhs) + signed(rhs) + c;
    (
        (total % 0x1_0000_0000) as u32,
        total > 0xffff_ffff,
        signed_total < -0x8000_0000 || signed_total > 0x7fff_ffff,
    )
}

/// The difference of two words with a borrow, with the flags a SUB/SBC
/// sets: carry means no borrow, overflow is signed overflow.
pub open spec fn sub_flags(lhs: u32, rhs: u32, carry_in: bool) -> (u32, bool, bool) {
    let borrow: int = if carry_in {
        0
    } else {
        1
    };
    let difference = lhs - rhs - borrow;
    let signed_difference = signed(lhs) - signed(rhs) - borrow;
    (
        (difference % 0x1_0000_0000) as u32,
        difference >= 0,
        signed_difference < -0x8000_0000 || signed_difference > 0x7fff_ffff,
    )
}

/// The banked state of a processor.
pub open spec fn banked_state(cpu: &Cpu) -> BankedState {
    BankedState {
        r: cpu.r@,
        sp: cpu.banked_sp@,
        lr: cpu.banked_lr@,
        saved: cpu.spsr_bank@,
        spsr: cpu.spsr,
        usr: cpu.usr_r8_12@,
        fiq: cpu.fiq_r8_12@,
        mode: cpu.mode,
    }
}

/// The state written to r13-r14 by an exception entry: the mode's banked
/// registers after the switch, with the return address in r14.
pub open spec fn same_outside_banks(a: &Cpu, b: &Cpu) -> bool {
    &&& a.n == b.n
    &&& a.z == b.z
    &&& a.c == b.c
    &&& a.v == b.v
    &&& a.irq_disable == b.irq_disable
    &&& a.fiq_disable == b.fiq_disable
    &&& a.thumb == b.thumb
    &&& a.halted == b.halted
    &&& a.intr_wait == b.intr_wait
    &&& a.flush == b.flush
    &&& a.pipeline == b.pipeline
}

/// An interrupt taken: IRQ mode entered with the banks switched, the
/// return address and the old status saved, IRQs masked, ARM state and
/// execution sent to the vector.
pub open spec fn irq_taken(a: &Cpu, b: &Cpu) -> bool {
    &&& {
            let banks = switched(banked_state(a), MODE_IRQ);
            &&& b.r@ == banks.r.update(14, a.pc_spec().wrapping_add(4)).update(15, 0x18)
            &&& b.spsr == a.cpsr_spec()
            &&& b.mode == MODE_IRQ
            &&& b.banked_sp@ == banks.sp
            &&& b.banked_lr@ == banks.lr
            &&& b.spsr_bank@ == banks.saved
        }
    &&& b.irq_disable
    &&& !b.thumb
    &&& b.flush
    &&& !b.halted
    &&& b.intr_wait == a.intr_wait
}

/// Both prefetch slots refilled from the (aligned) program counter, which
/// then points two instructions ahead; the bus sees the two fetches.
pub open spec fn pipeline_reloaded(a: &Cpu, ab: &Bus, b: &Cpu, bb: &Bus) -> bool {
    &&& !b.flush
    &&& b.r@ == a.r@.update(
        15,
        if a.thumb {
            (a.r[15] & !1u32).wrapping_add(4)
        } else {
            (a.r[15] & !3u32).wrapping_add(8)
        },
    )
    &&& *b == (Cpu { r: b.r, flush: false, pipeline: b.pipeline, ..*a })
    &&& a.thumb ==> b.pipeline[0] <= 0xffff && b.pipeline[1] <= 0xffff && exists|mid: Bus|
        crate::bus::code16_read(ab, a.r[15] & !1u32, b.pipeline[0] as u16, &mid)
            && #[trigger] crate::bus::code16_read(
            &mid,
            (a.r[15] & !1u32).wrapping_add(2),
            b.pipeline[1] as u16,
            bb,
        )
    &&& !a.thumb ==> exists|mid: Bus|
        crate::bus::code32_read(ab, a.r[15] & !3u32, b.pipeline[0], &mid)
            && #[trigger] crate::bus::code32_read(
            &mid,
            (a.r[15] & !3u32).wrapping_add(4),
            b.pipeline[1],
            bb,
        )
}

/// One step of a processor that is awake, through the states it passes:
/// the cycle count cleared, a pending branch's refill (`c1`, `b1`), then
/// either an interrupt taken (`c2`) and the vector fetched, or the next
/// instruction fetched behind the one that runs (`c2`, `b2`), that one
/// executed (`c3`, `b3`), and the program counter moved on, or refilled
/// after a branch. The cycles are the memory waits plus one (three for an
/// interrupt).
#[verifier::opaque]
pub open spec fn step_ran(
    c0: Cpu,
    b0: Bus,
    c1: Cpu,
    b1: Bus,
    c2: Cpu,
    b2: Bus,
    c3: Cpu,
    b3: Bus,
    c: Cpu,
    b: Bus,
    cycles: u32,
) -> bool {
    let zeroed = Bus { access_cycles: 0, ..b0 };
    &&& if c0.flush {
        pipeline_reloaded(&c0, &zeroed, &c1, &b1)
    } else {
        c1 == c0 && b1 == zeroed
    }
    &&& if !c1.irq_disable && b1.master_enable && (b1.interrupt_enable & b1.interrupt_flags) != 0 {
        &&& irq_taken(&c1, &c2)
        &&& pipeline_reloaded(&c2, &b1, &c, &b)
        &&& cycles == b.access_cycles.saturating_add(3)
    } else {
        &&& c2.pipeline[0] == c1.pipeline[1]
        &&& c2 == (Cpu { pipeline: c2.pipeline, ..c1 })
        &&& c1.thumb ==> c2.pipeline[1] <= 0xffff && crate::bus::code16_read(
            &b1,
            c1.r[15],
            c2.pipeline[1] as u16,
            &b2,
        ) && crate::cpu::thumb::thumb_executed(&c2, &b2, c1.pipeline[0] as u16, &c3, &b3)
        &&& !c1.thumb ==> crate::bus::code32_read(&b1, c1.r[15], c2.pipeline[1], &b2)
            && crate::cpu::arm::arm_executed(&c2, &b2, c1.pipeline[0], &c3, &b3)
        &&& !c3.flush ==> b == b3 && c == (Cpu { r: c.r, ..c3 }) && c.r@ == c3.r@.update(
            15,
            c3.r[15].wrapping_add(
                if c1.thumb {
                    2u32
                } else {
                    4u32
                },
            ),
        )
        &&& c3.flush ==> pipeline_reloaded(&c3, &b3, &c, &b)
        &&& cycles == b.access_cycles.saturating_add(1)
    }
}

/// One step of the processor: asleep it stays halted until an interrupt
/// is ready, which it then takes; awake it runs as `step_ran` says.
pub open spec fn stepped(a: &Cpu, ab: &Bus, b: &Cpu, bb: &Bus, cycles: u32) -> bool {
    &&& cycles >= 1
    &&& {
            let ready = !a.irq_disable && ab.master_enable && (ab.interrupt_enable & ab.interrupt_flags) != 0;
            let sleeping = match a.intr_wait {
                Some(f) => crate::bus::half_at(ab.iwram@, 0x7ff8) & f == 0,
                None => a.halted || ab.halt_requested,
            };
            &&& sleeping && !ready ==> *b == (Cpu { halted: true, ..*a })
                && cycles <= 64
            &&& sleeping && ready ==> b.mode == MODE_IRQ && !b.halted
                && b.pc_spec() == 0x18
        }
    &&& !a.halted && a.intr_wait is None && !ab.halt_requested ==> exists|
        c1: Cpu,
        b1: Bus,
        c2: Cpu,
        b2: Bus,
        c3: Cpu,
        b3: Bus,
    | #[trigger] step_ran(*a, *ab, c1, b1, c2, b2, c3, b3, *b, *bb, cycles)
}

impl Cpu {
    pub open spec fn cpsr_spec(&self) -> u32 {
        cpsr_value(
            self.n,
            self.z,
            self.c,
            self.v,
            self.irq_disable,
            self.fiq_disable,
            self.thumb,
            self.mode,
        )
    }

    /// Address of the instruction that runs next.
    pub open spec fn pc_spec(&self) -> u32 {
        if self.flush {
            self.r[15]
        } else if self.thumb {
            self.r[15].wrapping_sub(4)
        } else {
            self.r[15].wrapping_sub(8)
        }
    }

    pub fn new() -> (cpu: Self)
        ensures
            cpu.r@ == seq![0u32; 16],
            !cpu.n && !cpu.z && !cpu.c && !cpu.v,
            cpu.irq_disable && cpu.fiq_disable && !cpu.thumb,
            cpu.mode == MODE_SVC,
            cpu.spsr == 0,
            cpu.spsr_bank@ == seq![0u32; 6],
            cpu.banked_sp@ == seq![0u32; 6],
            cpu.banked_lr@ == seq![0u32; 6],
            cpu.usr_r8_12@ == seq![0u32; 5],
            cpu.fiq_r8_12@ == seq![0u32; 5],
            !cpu.halted,
            cpu.intr_wait is None,
            cpu.flush,
            cpu.pipeline@ == seq![0u32; 2],
    {
        let cpu = Cpu {
            r: [0; 16],
            n: false,
            z: false,
            c: false,
            v: false,
            irq_disable: true,
            fiq_disable: true,
            thumb: false,
            mode: MODE_SVC,
            spsr: 0,
            spsr_bank: [0; 6],
            banked_sp: [0; 6],
            banked_lr: [0; 6],
            usr_r8_12: [0; 5],
            fiq_r8_12: [0; 5],
            halted: false,
            intr_wait: None,
            flush: true,
            pipeline: [0; 2],
        };
        assert(cpu.r@ =~= seq![0u32; 16]);
        assert(cpu.spsr_bank@ =~= seq![0u32; 6]);
        assert(cpu.banked_sp@ =~= seq![0u32; 6]);
        assert(cpu.banked_lr@ =~= seq![0u32; 6]);
        assert(cpu.usr_r8_12@ =~= seq![0u32; 5]);
        assert(cpu.fiq_r8_12@ =~= seq![0u32; 5]);
        assert(cpu.pipeline@ =~= seq![0u32; 2]);
        cpu
    }

    /// Enter the state the BIOS leaves behind, so games run without a BIOS image.
    pub fn skip_bios(&mut self)
        ensures
            final(self).r@ == seq![0u32; 16].update(13, 0x0300_7f00).update(15, 0x0800_0000),
            final(self).banked_sp@ == seq![0x0300_7f00u32, 0, 0x0300_7fa0, 0x0300_7fe0, 0, 0],
            final(self).banked_lr@ == seq![0u32; 6],
            final(self).mode == MODE_SYS,
            !final(self).thumb && !final(self).irq_disable && !final(self).fiq_disable,
            !final(self).halted,
            final(self).intr_wait is None,
            final(self).flush,
            final(self).n == old(self).n && final(self).z == old(self).z,
            final(self).c == old(self).c && final(self).v == old(self).v,
            final(self).spsr == old(self).spsr,
            final(self).spsr_bank == old(self).spsr_bank,
            final(self).usr_r8_12 == old(self).usr_r8_12,
            final(self).fiq_r8_12 == old(self).fiq_r8_12,
            final(self).pipeline == old(self).pipeline,
    {
        self.r = [0; 16];
        self.banked_sp = [0; 6];
        self.banked_lr = [0; 6];
        self.banked_sp[bank_of(MODE_SVC)] = 0x0300_7fe0;
        self.banked_sp[bank_of(MODE_IRQ)] = 0x0300_7fa0;
        self.banked_sp[0] = 0x0300_7f00;
        self.r[13] = 0x0300_7f00;
        self.r[15] = 0x0800_0000;
        self.mode = MODE_SYS;
        self.thumb = false;
        self.irq_disable = false;
        self.fiq_disable = false;
        self.halted = false;
        self.intr_wait = None;
        self.flush = true;
        assert(self.r@ =~= seq![0u32; 16].update(13, 0x0300_7f00).update(15, 0x0800_0000));
        assert(self.banked_sp@ =~= seq![0x0300_7f00u32, 0, 0x0300_7fa0, 0x0300_7fe0, 0, 0]);
        assert(self.banked_lr@ =~= seq![0u32; 6]);
    }

    /// Start from the BIOS reset vector (used when a real BIOS image is loaded).
    pub fn reset(&mut self)
        ensures
            final(self).r@ == seq![0u32; 16],
            final(self).mode == MODE_SVC,
            !final(self).thumb && final(self).irq_disable && final(self).fiq_disable,
            !final(self).halted,
            final(self).intr_wait is None,
            final(self).flush,
            final(self).n == old(self).n && final(self).z == old(self).z,
            final(self).c == old(self).c && final(self).v == old(self).v,
            final(self).spsr == old(self).spsr,
            final(self).spsr_bank == old(self).spsr_bank,
            final(self).banked_sp == old(self).banked_sp,
            final(self).banked_lr == old(self).banked_lr,
            final(self).usr_r8_12 == old(self).usr_r8_12,
            final(self).fiq_r8_12 == old(self).fiq_r8_12,
            final(self).pipeline == old(self).pipeline,
    {
        self.r = [0; 16];
        self.mode = MODE_SVC;
        self.thumb = false;
        self.irq_disable = true;
        self.fiq_disable = true;
        self.halted = false;
        self.intr_wait = None;
        self.flush = true;
        assert(self.r@ =~= seq![0u32; 16]);
    }

    pub fn cpsr(&self) -> (value: u32)
        ensures
            value == self.cpsr_spec(),
    {
        let n: u32 = if self.n {
            1u32 << 31u32
        } else {
            0
        };
        let z: u32 = if self.z {
            1u32 << 30u32
        } else {
            0
        };
        let c: u32 = if self.c {
            1u32 << 29u32
        } else {
            0
        };
        let v: u32 = if self.v {
            1u32 << 28u32
        } else {
            0
        };
        let i: u32 = if self.irq_disable {
            1u32 << 7u32
        } else {
            0
        };
        let f: u32 = if self.fiq_disable {
            1u32 << 6u32
        } else {
            0
        };
        let t: u32 = if self.thumb {
            1u32 << 5u32
        } else {
            0
        };
        n | z | c | v | i | f | t | self.mode
    }

    pub fn set_cpsr(&mut self, value: u32, change_mode: bool)
        ensures
            final(self).n == bit_of(value, 31),
            final(self).z == bit_of(value, 30),
            final(self).c == bit_of(value, 29),
            final(self).v == bit_of(value, 28),
            change_mode ==> final(self).irq_disable == bit_of(value, 7) && final(self).fiq_disable
                == bit_of(value, 6) && final(self).thumb == bit_of(value, 5) && banked_state(
                &*final(self),
            ) == switched(banked_state(&*old(self)), value & 0x1f),
            !change_mode ==> final(self).irq_disable == old(self).irq_disable && final(
                self).fiq_disable == old(self).fiq_disable && final(self).thumb == old(self).thumb
                && banked_state(&*final(self)) == banked_state(&*old(self)) && final(self).spsr_bank
                == old(self).spsr_bank && final(self).r == old(self).r,
            final(self).halted == old(self).halted,
            final(self).intr_wait == old(self).intr_wait,
            final(self).flush == old(self).flush,
            final(self).pipeline == old(self).pipeline,
    {
        proof {
            lemma_bit_test(value, 31);
            lemma_bit_test(value, 30);
            lemma_bit_test(value, 29);
            lemma_bit_test(value, 28);
            lemma_bit_test(value, 7);
            lemma_bit_test(value, 6);
            lemma_bit_test(value, 5);
        }
        self.n = value & (1u32 << 31u32) != 0;
        self.z = value & (1u32 << 30u32) != 0;
        self.c = value & (1u32 << 29u32) != 0;
        self.v = value & (1u32 << 28u32) != 0;
        if change_mode {
            self.irq_disable = value & (1u32 << 7u32) != 0;
            self.fiq_disable = value & (1u32 << 6u32) != 0;
            self.thumb = value & (1u32 << 5u32) != 0;
            self.switch_mode(value & 0x1f);
        }
    }

    #[verifier::spinoff_prover]
    pub fn switch_mode(&mut self, mode: u32)
        ensures
            banked_state(&*final(self)) == switched(banked_state(&*old(self)), mode),
            same_outside_banks(&*final(self), &*old(self)),
    {
        let mode = if bank_of(mode) == 0 && mode != MODE_USR {
            MODE_SYS
        } else {
            mode
        };
        if mode == self.mode {
            return;
        }
        let ghost before = banked_state(&*self);
        let from = bank_of(self.mode);
        let to = bank_of(mode);
        self.banked_sp[from] = self.r[13];
        self.banked_lr[from] = self.r[14];
        self.spsr_bank[from] = self.spsr;
        if from == 1 && to != 1 {
            let mut k: usize = 0;
            while k < 5
                invariant
                    k <= 5,
                    self.r@.subrange(0, 8) == before.r.subrange(0, 8),
                    self.r@.subrange(13, 16) == before.r.subrange(13, 16),
                    forall|j: int| 0 <= j < k ==> #[trigger] self.fiq_r8_12@[j] == before.r[8 + j],
                    forall|j: int| 0 <= j < k ==> #[trigger] self.r@[8 + j] == before.usr[j],
                    forall|j: int| k <= j < 5 ==> #[trigger] self.r@[8 + j] == before.r[8 + j],
                    self.usr_r8_12@ == before.usr,
                    self.banked_sp@ == before.sp.update(from as int, before.r[13]),
                    self.banked_lr@ == before.lr.update(from as int, before.r[14]),
                    self.spsr_bank@ == before.saved.update(from as int, before.spsr),
                    self.mode == before.mode,
                    self.spsr == before.spsr,
                    same_outside_banks(&*self, &*old(self)),
                    self.r@.len() == 16,
                    from < 6,
                    to < 6,
                decreases 5 - k,
            {
                self.fiq_r8_12[k] = self.r[8 + k];
                self.r[8 + k] = self.usr_r8_12[k];
                k = k + 1;
            }
        } else if from != 1 && to == 1 {
            let mut k: usize = 0;
            while k < 5
                invariant
                    k <= 5,
                    self.r@.subrange(0, 8) == before.r.subrange(0, 8),
                    self.r@.subrange(13, 16) == before.r.subrange(13, 16),
                    forall|j: int| 0 <= j < k ==> #[trigger] self.usr_r8_12@[j] == before.r[8 + j],
                    forall|j: int| 0 <= j < k ==> #[trigger] self.r@[8 + j] == before.fiq[j],
                    forall|j: int| k <= j < 5 ==> #[trigger] self.r@[8 + j] == before.r[8 + j],
                    self.fiq_r8_12@ == before.fiq,
                    self.banked_sp@ == before.sp.update(from as int, before.r[13]),
                    self.banked_lr@ == before.lr.update(from as int, before.r[14]),
                    self.spsr_bank@ == before.saved.update(from as int, before.spsr),
                    self.mode == before.mode,
                    self.spsr == before.spsr,
                    same_outside_banks(&*self, &*old(self)),
                    self.r@.len() == 16,
                    from < 6,
                    to < 6,
                decreases 5 - k,
            {
                self.usr_r8_12[k] = self.r[8 + k];
                self.r[8 + k] = self.fiq_r8_12[k];
                k = k + 1;
            }
        }
        self.r[13] = self.banked_sp[to];
        self.r[14] = self.banked_lr[to];
        self.spsr = self.spsr_bank[to];
        self.mode = mode;
        proof {
            let after = switched(before, mode);
            assert forall|i: int| 0 <= i < 16 implies self.r@[i] == after.r[i] by {
                if i < 8 {
                    assert(self.r@[i] == self.r@.subrange(0, 8)[i]);
                    assert(before.r[i] == before.r.subrange(0, 8)[i]);
                } else if i < 13 {
                    assert(self.r@[i] == self.r@[8 + (i - 8)]);
                } else if i == 15 {
                    assert(self.r@[i] == self.r@.subrange(13, 16)[2]);
                    assert(before.r[i] == before.r.subrange(13, 16)[2]);
                }
            }
            assert(self.r@ =~= after.r);
            assert(self.usr_r8_12@ =~= after.usr);
            assert(self.fiq_r8_12@ =~= after.fiq);
        }
    }

    /// Reads a register through the user bank, for `LDM/STM` with the S bit.
    pub open spec fn user_reg_spec(&self, index: int) -> u32 {
        if 8 <= index <= 12 && self.mode == MODE_FIQ {
            self.usr_r8_12[index - 8]
        } else if index == 13 && bank_index(self.mode) != 0 {
            self.banked_sp[0]
        } else if index == 14 && bank_index(self.mode) != 0 {
            self.banked_lr[0]
        } else {
            self.r[index]
        }
    }

    fn user_reg(&self, index: usize) -> (value: u32)
        requires
            index < 16,
        ensures
            value == self.user_reg_spec(index as int),
    {
        if 8 <= index && index <= 12 && self.mode == MODE_FIQ {
            self.usr_r8_12[index - 8]
        } else if index == 13 && bank_of(self.mode) != 0 {
            self.banked_sp[0]
        } else if index == 14 && bank_of(self.mode) != 0 {
            self.banked_lr[0]
        } else {
            self.r[index]
        }
    }

    fn set_user_reg(&mut self, index: usize, value: u32)
        requires
            index < 16,
        ensures
            final(self).user_reg_spec(index as int) == value,
            final(self).mode == old(self).mode,
            forall|i: int| 0 <= i < 16 && i != index ==> #[trigger] final(self).user_reg_spec(i)
                == old(self).user_reg_spec(i),
            forall|i: int|
                0 <= i < 16 && i != index ==> #[trigger] final(self).r[i] == old(self).r[i],
            same_outside_banks(&*final(self), &*old(self)),
            final(self).spsr == old(self).spsr,
    {
        if 8 <= index && index <= 12 && self.mode == MODE_FIQ {
            self.usr_r8_12[index - 8] = value;
        } else if index == 13 && bank_of(self.mode) != 0 {
            self.banked_sp[0] = value;
        } else if index == 14 && bank_of(self.mode) != 0 {
            self.banked_lr[0] = value;
        } else {
            self.r[index] = value;
        }
    }

    fn set_pc(&mut self, value: u32)
        ensures
            final(self).r@ == old(self).r@.update(15, value),
            final(self).flush,
            *final(self) == (Cpu { r: final(self).r, flush: true, ..*old(self) }),
    {
        self.r[15] = value;
        self.flush = true;
    }

    /// Branch honouring the low bit as a state switch, as `BX` does.
    fn branch_exchange(&mut self, value: u32)
        ensures
            final(self).thumb == bit_of(value, 0),
            final(self).r@ == old(self).r@.update(
                15,
                if bit_of(value, 0) {
                    value & !1u32
                } else {
                    value & !3u32
                },
            ),
            *final(self) == (Cpu { r: final(self).r, flush: true, thumb: final(self).thumb, ..*old(self) }),
    {
        proof {
            lemma_edge_bits(value);
        }
        self.thumb = value & 1 != 0;
        let mask: u32 = if value & 1 != 0 {
            !1u32
        } else {
            !3u32
        };
        self.set_pc(value & mask);
    }

    /// Enters an exception: the mode's banked registers come in, SPSR keeps
    /// the old status, r14 the return address, and ARM state runs the vector
    /// with interrupts off.
    pub fn exception(&mut self, vector: u32, mode: u32)
        ensures
            ({
                let b = switched(banked_state(&*old(self)), mode);
                let width: u32 = if old(self).thumb {
                    2
                } else {
                    4
                };
                &&& final(self).r@ == b.r.update(14, old(self).r[15].wrapping_sub(width)).update(
                    15,
                    vector,
                )
                &&& final(self).spsr == old(self).cpsr_spec()
                &&& final(self).mode == b.mode
                &&& final(self).banked_sp@ == b.sp
                &&& final(self).banked_lr@ == b.lr
                &&& final(self).spsr_bank@ == b.saved
            }),
            final(self).irq_disable,
            !final(self).thumb,
            final(self).flush,
            final(self).fiq_disable == old(self).fiq_disable,
            final(self).halted == old(self).halted,
            final(self).intr_wait == old(self).intr_wait,
            final(self).n == old(self).n && final(self).z == old(self).z,
            final(self).c == old(self).c && final(self).v == old(self).v,
    {
        let width: u32 = if self.thumb {
            2
        } else {
            4
        };
        let return_address = self.r[15].wrapping_sub(width);
        let cpsr = self.cpsr();
        self.switch_mode(mode);
        self.spsr = cpsr;
        self.r[14] = return_address;
        self.irq_disable = true;
        self.thumb = false;
        self.set_pc(vector);
    }

    /// True when the interrupt controller is asking for an IRQ we may take.
    pub fn irq_ready(&self, bus: &Bus) -> (ready: bool)
        ensures
            ready == (!self.irq_disable && bus.master_enable && (bus.interrupt_enable
                & bus.interrupt_flags) != 0),
    {
        !self.irq_disable && bus.irq_pending()
    }

    /// Address of the instruction that runs next. While a branch is pending
    /// r15 already holds the target, since the pipeline has not refilled yet.
    pub fn pc(&self) -> (address: u32)
        ensures
            address == self.pc_spec(),
    {
        if self.flush {
            return self.r[15];
        }
        let width: u32 = if self.thumb {
            2
        } else {
            4
        };
        self.r[15].wrapping_sub(width * 2)
    }

    /// Enters the IRQ vector. The handler returns with `subs pc, lr, #4`, so lr
    /// holds the address of the pending instruction plus four.
    fn take_irq(&mut self)
        ensures
            irq_taken(&*old(self), &*final(self)),
    {
        let return_address = self.pc().wrapping_add(4);
        let cpsr = self.cpsr();
        self.switch_mode(MODE_IRQ);
        self.spsr = cpsr;
        self.r[14] = return_address;
        self.irq_disable = true;
        self.thumb = false;
        self.set_pc(0x18);
        self.halted = false;
    }

    /// Redirects execution from outside the instruction stream, as SoftReset does.
    pub fn set_pc_external(&mut self, value: u32)
        ensures
            final(self).r@ == old(self).r@.update(15, value),
            *final(self) == (Cpu { r: final(self).r, flush: true, ..*old(self) }),
    {
        self.set_pc(value);
    }

    /// Refills both prefetch slots after a branch or exception.
    fn reload_pipeline(&mut self, bus: &mut Bus)
        requires
            old(bus).wf(),
        ensures
            final(bus).wf(),
            pipeline_reloaded(&*old(self), &*old(bus), &*final(self), &*final(bus)),
    {
        if self.thumb {
            let pc = self.r[15] & !1u32;
            let first = bus.read16_code(pc);
            let ghost mid = *bus;
            let second = bus.read16_code(pc.wrapping_add(2));
            self.pipeline = [first as u32, second as u32];
            self.r[15] = pc.wrapping_add(4);
            assert(crate::bus::code16_read(&*old(bus), pc, first, &mid)
                && crate::bus::code16_read(&mid, pc.wrapping_add(2), second, &*bus));
            assert(self.pipeline[0] as u16 == first && self.pipeline[1] as u16 == second);
        } else {
            let pc = self.r[15] & !3u32;
            let first = bus.read32_code(pc);
            let ghost mid = *bus;
            let second = bus.read32_code(pc.wrapping_add(4));
            self.pipeline = [first, second];
            self.r[15] = pc.wrapping_add(8);
            assert(crate::bus::code32_read(&*old(bus), pc, first, &mid)
                && crate::bus::code32_read(&mid, pc.wrapping_add(4), second, &*bus));
        }
        self.flush = false;
    }

    /// Runs one instruction (or idles) and returns the cycles spent: one
    /// plus the memory waits, three to enter an interrupt, or while halted
    /// the time until the next peripheral event, between 1 and 64.
    #[verifier::rlimit(100)]
    #[verifier::spinoff_prover]
    pub fn step(&mut self, bus: &mut Bus) -> (cycles: u32)
        requires
            old(bus).wf(),
        ensures
            final(bus).wf(),
            cycles >= 1,
            ({
                let ready = !old(self).irq_disable && old(bus).master_enable && (old(bus).interrupt_enable & old(bus).interrupt_flags) != 0;
                let sleeping = match old(self).intr_wait {
                    Some(f) => crate::bus::half_at(old(bus).iwram@, 0x7ff8) & f == 0,
                    None => old(self).halted || old(bus).halt_requested,
                };
                &&& sleeping && !ready ==> *final(self) == (Cpu { halted: true, ..*old(self) })
                    && cycles <= 64
                &&& sleeping && ready ==> final(self).mode == MODE_IRQ && !final(self).halted
                    && final(self).pc_spec() == 0x18
            }),
            !old(self).halted && old(self).intr_wait is None && !old(bus).halt_requested ==> exists|
                c1: Cpu,
                b1: Bus,
                c2: Cpu,
                b2: Bus,
                c3: Cpu,
                b3: Bus,
            |
                #[trigger] step_ran(
                    *old(self),
                    *old(bus),
                    c1,
                    b1,
                    c2,
                    b2,
                    c3,
                    b3,
                    *final(self),
                    *final(bus),
                    cycles,
                ),
            stepped(&*old(self), &*old(bus), &*final(self), &*final(bus), cycles),
    {
        if bus.halt_requested {
            bus.halt_requested = false;
            self.halted = true;
        }
        match self.intr_wait {
            Some(flags) => {
                let current = bus.bios_irq_flags();
                if current & flags != 0 {
                    bus.set_bios_irq_flags(current & !flags);
                    self.intr_wait = None;
                    self.halted = false;
                } else {
                    self.halted = true;
                }
            },
            None => {},
        }
        if self.halted {
            if self.irq_ready(bus) {
                self.take_irq();
                bus.access_cycles = 0;
                self.reload_pipeline(bus);
                proof {
                    lemma_word_bits(0, 0, 0, 0, 0);
                }
                return 3;
            }
            // Idle until a timer, DMA or the PPU raises something.
            let wait = bus.cycles_until_event();
            return if wait > 64 {
                64
            } else {
                wait
            };
        }
        bus.access_cycles = 0;
        if self.flush {
            self.reload_pipeline(bus);
        }
        let ghost c1 = *self;
        let ghost b1 = *bus;
        if self.irq_ready(bus) {
            self.take_irq();
            let ghost c2 = *self;
            self.reload_pipeline(bus);
            let cycles = bus.access_cycles.saturating_add(3);
            proof {
                if !old(self).halted && old(self).intr_wait is None && !old(bus).halt_requested {
                    assert(step_ran(*old(self), *old(bus), c1, b1, c2, b1, c2, b1, *self, *bus, cycles))
                        by {
                        reveal(step_ran);
                    }
                }
            }
            return cycles;
        }
        let op = self.pipeline[0];
        self.pipeline[0] = self.pipeline[1];
        let ghost c3;
        let ghost b3;
        let ghost c2;
        let ghost b2;
        if self.thumb {
            let next = bus.read16_code(self.r[15]) as u32;
            self.pipeline[1] = next;
            proof {
                c2 = *self;
                b2 = *bus;
            }
            self.execute_thumb(bus, op as u16);
            proof {
                c3 = *self;
                b3 = *bus;
            }
            if !self.flush {
                self.r[15] = self.r[15].wrapping_add(2);
            }
        } else {
            let next = bus.read32_code(self.r[15]);
            self.pipeline[1] = next;
            proof {
                c2 = *self;
                b2 = *bus;
            }
            self.execute_arm(bus, op);
            proof {
                c3 = *self;
                b3 = *bus;
            }
            if !self.flush {
                self.r[15] = self.r[15].wrapping_add(4);
            }
        }
        if self.flush {
            self.reload_pipeline(bus);
        }
        let cycles = bus.access_cycles.saturating_add(1);
        proof {
            if !old(self).halted && old(self).intr_wait is None && !old(bus).halt_requested {
                assert(step_ran(*old(self), *old(bus), c1, b1, c2, b2, c3, b3, *self, *bus, cycles))
                    by {
                    reveal(step_ran);
                }
            }
        }
        cycles
    }

    fn check_condition(&self, condition: u32) -> (holds: bool)
        ensures
            holds == condition_holds(condition, self.n, self.z, self.c, self.v),
    {
        if condition == 0 {
            self.z
        } else if condition == 1 {
            !self.z
        } else if condition == 2 {
            self.c
        } else if condition == 3 {
            !self.c
        } else if condition == 4 {
            self.n
        } else if condition == 5 {
            !self.n
        } else if condition == 6 {
            self.v
        } else if condition == 7 {
            !self.v
        } else if condition == 8 {
            self.c && !self.z
        } else if condition == 9 {
            !self.c || self.z
        } else if condition == 10 {
            self.n == self.v
        } else if condition == 11 {
            self.n != self.v
        } else if condition == 12 {
            !self.z && self.n == self.v
        } else if condition == 13 {
            self.z || self.n != self.v
        } else {
            true
        }
    }

    fn set_nz(&mut self, value: u32)
        ensures
            *final(self) == (Cpu { n: value >= 0x8000_0000, z: value == 0, ..*old(self) }),
    {
        proof {
            lemma_word_bits(value, 0, 0, 0, 0);
        }
        self.n = value & 0x8000_0000 != 0;
        self.z = value == 0;
    }

    fn add_with_flags(&mut self, lhs: u32, rhs: u32, carry_in: bool) -> (result: u32)
        ensures
            ({
                let (sum, carry, overflow) = add_flags(lhs, rhs, carry_in);
                &&& result == sum
                &&& *final(self) == (Cpu {
                    n: sum >= 0x8000_0000,
                    z: sum == 0,
                    c: carry,
                    v: overflow,
                    ..*old(self)
                })
            }),
    {
        let c: u64 = if carry_in {
            1
        } else {
            0
        };
        let wide = lhs as u64 + rhs as u64 + c;
        let result = wide as u32;
        self.c = wide > 0xffff_ffff;
        self.v = (!(lhs ^ rhs) & (lhs ^ result)) & 0x8000_0000 != 0;
        proof {
            lemma_word_bits(0, 0, 0, wide, 0);
            lemma_add_overflow(lhs, rhs, carry_in, result);
        }
        self.set_nz(result);
        result
    }

    fn sub_with_flags(&mut self, lhs: u32, rhs: u32, carry_in: bool) -> (result: u32)
        ensures
            ({
                let (difference, carry, overflow) = sub_flags(lhs, rhs, carry_in);
                &&& result == difference
                &&& *final(self) == (Cpu {
                    n: difference >= 0x8000_0000,
                    z: difference == 0,
                    c: carry,
                    v: overflow,
                    ..*old(self)
                })
            }),
    {
        let c: u64 = if carry_in {
            1
        } else {
            0
        };
        let wide = lhs as u64 + (!rhs) as u64 + c;
        let result = wide as u32;
        self.c = wide > 0xffff_ffff;
        self.v = ((lhs ^ rhs) & (lhs ^ result)) & 0x8000_0000 != 0;
        proof {
            lemma_word_bits(rhs, 0, 0, 0, 0);
            lemma_word_bits(rhs, 0, 0, wide, 0);
            lemma_sub_overflow(lhs, rhs, carry_in, result);
        }
        self.set_nz(result);
        result
    }
}

proof fn lemma_add_overflow(lhs: u32, rhs: u32, carry_in: bool, result: u32)
    requires
        result == ((lhs + rhs + if carry_in {
            1int
        } else {
            0int
        }) % 0x1_0000_0000) as u32,
    ensures
        ((!(lhs ^ rhs) & (lhs ^ result)) & 0x8000_0000 != 0) == add_flags(lhs, rhs, carry_in).2,
{
    let c: u32 = if carry_in {
        1
    } else {
        0
    };
    assert(((!(lhs ^ rhs) & (lhs ^ result)) & 0x8000_0000 != 0) == ({
        let sl: int = if lhs >= 0x8000_0000 {
            lhs - 0x1_0000_0000
        } else {
            lhs as int
        };
        let sr: int = if rhs >= 0x8000_0000 {
            rhs - 0x1_0000_0000
        } else {
            rhs as int
        };
        sl + sr + c < -0x8000_0000 || sl + sr + c > 0x7fff_ffff
    })) by (bit_vector)
        requires
            c <= 1,
            result == ((lhs as u64 + rhs as u64 + c as u64) % 0x1_0000_0000) as u32,
    ;
}

proof fn lemma_sub_overflow(lhs: u32, rhs: u32, carry_in: bool, result: u32)
    requires
        result == ((lhs + (0xffff_ffff - rhs) + if carry_in {
            1int
        } else {
            0int
        }) % 0x1_0000_0000) as u32,
    ensures
        (((lhs ^ rhs) & (lhs ^ result)) & 0x8000_0000 != 0) == sub_flags(lhs, rhs, carry_in).2,
{
    let c: u32 = if carry_in {
        1
    } else {
        0
    };
    assert((((lhs ^ rhs) & (lhs ^ result)) & 0x8000_0000 != 0) == ({
        let sl: int = if lhs >= 0x8000_0000 {
            lhs - 0x1_0000_0000
        } else {
            lhs as int
        };
        let sr: int = if rhs >= 0x8000_0000 {
            rhs - 0x1_0000_0000
        } else {
            rhs as int
        };
        sl - sr - (1 - c) < -0x8000_0000 || sl - sr - (1 - c) > 0x7fff_ffff
    })) by (bit_vector)
        requires
            c <= 1,
            result == ((lhs as u64 + (0xffff_ffff - rhs) as u64 + c as u64) % 0x1_0000_0000) as u32,
    ;
}



/// Leaving a mode and coming back restores everything a program sees in it:
/// r0-r15, the saved status register and the mode. (FIQ's r8-r12 and every
/// mode's r13/r14 live in their banks meanwhile.)
pub proof fn law_mode_round_trip(b: BankedState, there: u32)
    requires
        b.r.len() == 16,
        b.sp.len() == 6,
        b.lr.len() == 6,
        b.saved.len() == 6,
        b.usr.len() == 5,
        b.fiq.len() == 5,
        effective_mode(b.mode) == b.mode,
    ensures
        switched(switched(b, there), b.mode).r == b.r,
        switched(switched(b, there), b.mode).spsr == b.spsr,
        switched(switched(b, there), b.mode).mode == b.mode,
{
    let away = switched(b, there);
    let back = switched(away, b.mode);
    if effective_mode(there) != b.mode {
        assert(away.r.len() == 16);
        assert(back.r =~= b.r);
    }
}

/// The status register holds every flag and the mode: reading the bits back
/// out of `cpsr()` gives the processor's own flags and mode. (The mode field
/// is five bits wide; a wider value would spill into the flag bits.)
pub proof fn law_status_register_round_trip(cpu: &Cpu)
    requires
        cpu.mode < 0x20,
    ensures
        bit_of(cpu.cpsr_spec(), 31) == cpu.n,
        bit_of(cpu.cpsr_spec(), 30) == cpu.z,
        bit_of(cpu.cpsr_spec(), 29) == cpu.c,
        bit_of(cpu.cpsr_spec(), 28) == cpu.v,
        bit_of(cpu.cpsr_spec(), 7) == cpu.irq_disable,
        bit_of(cpu.cpsr_spec(), 6) == cpu.fiq_disable,
        bit_of(cpu.cpsr_spec(), 5) == cpu.thumb,
        cpu.cpsr_spec() & 0x1f == cpu.mode,
{
    lemma_status_bits(cpu.n, cpu.z, cpu.c, cpu.v, cpu.irq_disable, cpu.fiq_disable, cpu.thumb, cpu.mode);
}

proof fn lemma_status_bits(
    n: bool,
    z: bool,
    c: bool,
    v: bool,
    i: bool,
    f: bool,
    t: bool,
    mode: u32,
)
    by (bit_vector)
    requires
        mode < 0x20,
    ensures
        bit_of(cpsr_value(n, z, c, v, i, f, t, mode), 31) == n,
        bit_of(cpsr_value(n, z, c, v, i, f, t, mode), 30) == z,
        bit_of(cpsr_value(n, z, c, v, i, f, t, mode), 29) == c,
        bit_of(cpsr_value(n, z, c, v, i, f, t, mode), 28) == v,
        bit_of(cpsr_value(n, z, c, v, i, f, t, mode), 7) == i,
        bit_of(cpsr_value(n, z, c, v, i, f, t, mode), 6) == f,
        bit_of(cpsr_value(n, z, c, v, i, f, t, mode), 5) == t,
        cpsr_value(n, z, c, v, i, f, t, mode) & 0x1f == mode,
{
}

// ------------------------------------------------------------ save states

/// Little-endian words laid end to end.
pub open spec fn words_bytes(words: Seq<u32>) -> Seq<u8>
    decreases words.len(),
{
    if words.len() == 0 {
        Seq::empty()
    } else {
        words_bytes(words.drop_last()) + le32(words.last())
    }
}

pub proof fn lemma_cpu_bytes_len(cpu: &Cpu)
    ensures
        cpu_bytes(cpu).len() == 204,
{
    lemma_words_bytes_len(cpu.r@);
    lemma_words_bytes_len(cpu.spsr_bank@);
    lemma_words_bytes_len(bank_words(cpu.banked_sp@, cpu.banked_lr@));
    lemma_words_bytes_len(cpu.usr_r8_12@);
    lemma_words_bytes_len(cpu.fiq_r8_12@);
    lemma_words_bytes_len(cpu.pipeline@);
}

proof fn lemma_words_bytes_len(words: Seq<u32>)
    ensures
        words_bytes(words).len() == 4 * words.len(),
    decreases words.len(),
{
    if words.len() > 0 {
        lemma_words_bytes_len(words.drop_last());
    }
}

/// The banked r13/r14 pairs in the order they are saved: each bank's r13,
/// then its r14.
pub open spec fn bank_words(sp: Seq<u32>, lr: Seq<u32>) -> Seq<u32> {
    Seq::new(
        12,
        |i: int|
            if i % 2 == 0 {
                sp[i / 2]
            } else {
                lr[i / 2]
            },
    )
}

/// The words stored from `p` on.
pub open spec fn words_at(bytes: Seq<u8>, p: int, count: nat) -> Seq<u32> {
    Seq::new(count, |i: int| from_le32(bytes, p + 4 * i))
}

/// How many bytes a processor state takes.
pub const CPU_STATE_BYTES: usize = 204;

/// The bytes a processor is saved as: registers and status first, then
/// the banks, then the run state and the prefetched instructions.
pub open spec fn cpu_bytes(cpu: &Cpu) -> Seq<u8> {
    head_bytes(cpu) + banks_bytes(cpu) + tail_bytes(cpu)
}

pub open spec fn head_bytes(cpu: &Cpu) -> Seq<u8> {
    words_bytes(cpu.r@) + seq![
        bool_byte(cpu.n),
        bool_byte(cpu.z),
        bool_byte(cpu.c),
        bool_byte(cpu.v),
        bool_byte(cpu.irq_disable),
        bool_byte(cpu.fiq_disable),
        bool_byte(cpu.thumb),
    ] + le32(cpu.mode) + le32(cpu.spsr)
}

pub open spec fn banks_bytes(cpu: &Cpu) -> Seq<u8> {
    words_bytes(cpu.spsr_bank@) + words_bytes(bank_words(cpu.banked_sp@, cpu.banked_lr@))
        + words_bytes(cpu.usr_r8_12@) + words_bytes(cpu.fiq_r8_12@)
}

pub open spec fn tail_bytes(cpu: &Cpu) -> Seq<u8> {
    seq![bool_byte(cpu.halted)] + option16_bytes(cpu.intr_wait) + seq![bool_byte(cpu.flush)]
        + words_bytes(cpu.pipeline@)
}

/// A processor whose every field is what the bytes from `p` on say.
pub open spec fn cpu_decoded(cpu: &Cpu, b: Seq<u8>, p: int) -> bool {
    head_decoded(cpu, b, p) && banks_decoded(cpu, b, p + 79) && tail_decoded(cpu, b, p + 191)
}

pub open spec fn head_decoded(cpu: &Cpu, b: Seq<u8>, p: int) -> bool {
    &&& cpu.r@ == words_at(b, p, 16)
    &&& cpu.n == (b[p + 64] != 0)
    &&& cpu.z == (b[p + 65] != 0)
    &&& cpu.c == (b[p + 66] != 0)
    &&& cpu.v == (b[p + 67] != 0)
    &&& cpu.irq_disable == (b[p + 68] != 0)
    &&& cpu.fiq_disable == (b[p + 69] != 0)
    &&& cpu.thumb == (b[p + 70] != 0)
    &&& cpu.mode == from_le32(b, p + 71)
    &&& cpu.spsr == from_le32(b, p + 75)
}

pub open spec fn banks_decoded(cpu: &Cpu, b: Seq<u8>, p: int) -> bool {
    &&& cpu.spsr_bank@ == words_at(b, p, 6)
    &&& bank_words(cpu.banked_sp@, cpu.banked_lr@) == words_at(b, p + 24, 12)
    &&& cpu.usr_r8_12@ == words_at(b, p + 72, 5)
    &&& cpu.fiq_r8_12@ == words_at(b, p + 92, 5)
}

pub open spec fn tail_decoded(cpu: &Cpu, b: Seq<u8>, p: int) -> bool {
    &&& cpu.halted == (b[p] != 0)
    &&& cpu.intr_wait == if b[p + 1] != 0 {
        Some(from_le16(b, p + 2))
    } else {
        None::<u16>
    }
    &&& cpu.flush == (b[p + 4] != 0)
    &&& cpu.pipeline@ == words_at(b, p + 5, 2)
}

fn write_words(writer: &mut Writer, words: &[u32])
    ensures
        final(writer).data@ == old(writer).data@ + words_bytes(words@),
{
    let mut index: usize = 0;
    while index < words.len()
        invariant
            index <= words@.len(),
            writer.data@ == old(writer).data@ + words_bytes(words@.subrange(0, index as int)),
        decreases words@.len() - index,
    {
        writer.u32(words[index]);
        proof {
            let before = words@.subrange(0, index as int);
            let after = words@.subrange(0, index + 1);
            assert(after.drop_last() =~= before);
            assert(after.last() == words@[index as int]);
        }
        index = index + 1;
        assert(writer.data@ =~= old(writer).data@ + words_bytes(words@.subrange(0, index as int)));
    }
    assert(words@.subrange(0, words@.len() as int) =~= words@);
}

fn read_words(reader: &mut Reader, count: usize) -> (result: Result<Vec<u32>, StateError>)
    requires
        old(reader).wf(),
        count <= 16,
    ensures
        final(reader).wf(),
        final(reader).bytes() == old(reader).bytes(),
        match result {
            Ok(words) => old(reader).fits(4 * count) && old(reader).advanced(
                &*final(reader),
                4 * count,
            ) && words@ == words_at(old(reader).bytes(), old(reader).pos(), count as nat),
            Err(error) => error is Truncated && !old(reader).fits(4 * count),
        },
{
    let mut words: Vec<u32> = Vec::new();
    let mut index: usize = 0;
    while index < count
        invariant
            index <= count <= 16,
            reader.wf(),
            reader.bytes() == old(reader).bytes(),
            reader.pos() == old(reader).pos() + 4 * index,
            words@ == words_at(old(reader).bytes(), old(reader).pos(), index as nat),
        decreases count - index,
    {
        let word = reader.u32()?;
        words.push(word);
        index = index + 1;
        assert(words@ =~= words_at(old(reader).bytes(), old(reader).pos(), index as nat));
    }
    Ok(words)
}

impl Cpu {
    #[verifier::rlimit(100)]
    #[verifier::spinoff_prover]
    fn save_head(&self, writer: &mut Writer)
        ensures
            final(writer).data@ == old(writer).data@ + head_bytes(self),
    {
        write_words(writer, self.r.as_slice());
        proof {
            lemma_words_bytes_len(self.r@);
        }
        let ghost words = writer.data@;
        writer.bool(self.n);
        writer.bool(self.z);
        writer.bool(self.c);
        writer.bool(self.v);
        writer.bool(self.irq_disable);
        writer.bool(self.fiq_disable);
        writer.bool(self.thumb);
        let ghost flags = seq![
            bool_byte(self.n),
            bool_byte(self.z),
            bool_byte(self.c),
            bool_byte(self.v),
            bool_byte(self.irq_disable),
            bool_byte(self.fiq_disable),
            bool_byte(self.thumb),
        ];
        assert(writer.data@ =~= words + flags);
        writer.u32(self.mode);
        writer.u32(self.spsr);
        assert(writer.data@ =~= old(writer).data@ + head_bytes(self));
    }

    fn save_banks(&self, writer: &mut Writer)
        ensures
            final(writer).data@ == old(writer).data@ + banks_bytes(self),
    {
        write_words(writer, self.spsr_bank.as_slice());
        let banks: [u32; 12] = [
            self.banked_sp[0],
            self.banked_lr[0],
            self.banked_sp[1],
            self.banked_lr[1],
            self.banked_sp[2],
            self.banked_lr[2],
            self.banked_sp[3],
            self.banked_lr[3],
            self.banked_sp[4],
            self.banked_lr[4],
            self.banked_sp[5],
            self.banked_lr[5],
        ];
        assert(banks@ =~= bank_words(self.banked_sp@, self.banked_lr@));
        write_words(writer, banks.as_slice());
        write_words(writer, self.usr_r8_12.as_slice());
        write_words(writer, self.fiq_r8_12.as_slice());
        assert(writer.data@ =~= old(writer).data@ + banks_bytes(self));
    }

    fn save_tail(&self, writer: &mut Writer)
        ensures
            final(writer).data@ == old(writer).data@ + tail_bytes(self),
    {
        writer.bool(self.halted);
        writer.option_u16(self.intr_wait);
        writer.bool(self.flush);
        write_words(writer, self.pipeline.as_slice());
        assert(writer.data@ =~= old(writer).data@ + tail_bytes(self));
    }

    fn load_head(&mut self, reader: &mut Reader) -> (result: Result<(), StateError>)
        requires
            old(reader).wf(),
        ensures
            final(reader).wf(),
            final(reader).bytes() == old(reader).bytes(),
            result is Ok ==> old(reader).fits(79) && old(reader).advanced(&*final(reader), 79)
                && head_decoded(&*final(self), old(reader).bytes(), old(reader).pos())
                && *final(self) == (Cpu {
                r: final(self).r,
                n: final(self).n,
                z: final(self).z,
                c: final(self).c,
                v: final(self).v,
                irq_disable: final(self).irq_disable,
                fiq_disable: final(self).fiq_disable,
                thumb: final(self).thumb,
                mode: final(self).mode,
                spsr: final(self).spsr,
                ..*old(self)
            }),
            result is Err ==> !old(reader).fits(79),
    {
        let ghost b = reader.bytes();
        let ghost p = reader.pos();
        let r = read_words(reader, 16)?;
        let n = reader.bool()?;
        let z = reader.bool()?;
        let c = reader.bool()?;
        let v = reader.bool()?;
        let irq_disable = reader.bool()?;
        let fiq_disable = reader.bool()?;
        let thumb = reader.bool()?;
        let mode = reader.u32()?;
        let spsr = reader.u32()?;
        self.r = [
            r[0],
            r[1],
            r[2],
            r[3],
            r[4],
            r[5],
            r[6],
            r[7],
            r[8],
            r[9],
            r[10],
            r[11],
            r[12],
            r[13],
            r[14],
            r[15],
        ];
        self.n = n;
        self.z = z;
        self.c = c;
        self.v = v;
        self.irq_disable = irq_disable;
        self.fiq_disable = fiq_disable;
        self.thumb = thumb;
        self.mode = mode;
        self.spsr = spsr;
        assert(self.r@ =~= words_at(b, p, 16));
        Ok(())
    }

    #[verifier::rlimit(100)]
    #[verifier::spinoff_prover]
    fn load_banks(&mut self, reader: &mut Reader) -> (result: Result<(), StateError>)
        requires
            old(reader).wf(),
        ensures
            final(reader).wf(),
            final(reader).bytes() == old(reader).bytes(),
            result is Ok ==> old(reader).fits(112) && old(reader).advanced(&*final(reader), 112)
                && banks_decoded(&*final(self), old(reader).bytes(), old(reader).pos())
                && *final(self) == (Cpu {
                spsr_bank: final(self).spsr_bank,
                banked_sp: final(self).banked_sp,
                banked_lr: final(self).banked_lr,
                usr_r8_12: final(self).usr_r8_12,
                fiq_r8_12: final(self).fiq_r8_12,
                ..*old(self)
            }),
            result is Err ==> !old(reader).fits(112),
    {
        let ghost b = reader.bytes();
        let ghost p = reader.pos();
        let spsr_bank = read_words(reader, 6)?;
        let banks = read_words(reader, 12)?;
        let usr = read_words(reader, 5)?;
        let fiq = read_words(reader, 5)?;
        self.spsr_bank = [
            spsr_bank[0],
            spsr_bank[1],
            spsr_bank[2],
            spsr_bank[3],
            spsr_bank[4],
            spsr_bank[5],
        ];
        self.banked_sp = [banks[0], banks[2], banks[4], banks[6], banks[8], banks[10]];
        self.banked_lr = [banks[1], banks[3], banks[5], banks[7], banks[9], banks[11]];
        self.usr_r8_12 = [usr[0], usr[1], usr[2], usr[3], usr[4]];
        self.fiq_r8_12 = [fiq[0], fiq[1], fiq[2], fiq[3], fiq[4]];
        proof {
            assert(self.spsr_bank@ =~= words_at(b, p, 6));
            assert(bank_words(self.banked_sp@, self.banked_lr@) =~= words_at(b, p + 24, 12));
            assert(self.usr_r8_12@ =~= words_at(b, p + 72, 5));
            assert(self.fiq_r8_12@ =~= words_at(b, p + 92, 5));
        }
        Ok(())
    }

    fn load_tail(&mut self, reader: &mut Reader) -> (result: Result<(), StateError>)
        requires
            old(reader).wf(),
        ensures
            final(reader).wf(),
            final(reader).bytes() == old(reader).bytes(),
            result is Ok ==> old(reader).fits(13) && old(reader).advanced(&*final(reader), 13)
                && tail_decoded(&*final(self), old(reader).bytes(), old(reader).pos())
                && *final(self) == (Cpu {
                halted: final(self).halted,
                intr_wait: final(self).intr_wait,
                flush: final(self).flush,
                pipeline: final(self).pipeline,
                ..*old(self)
            }),
            result is Err ==> !old(reader).fits(13),
    {
        let ghost b = reader.bytes();
        let ghost p = reader.pos();
        let halted = reader.bool()?;
        let intr_wait = reader.option_u16()?;
        let flush = reader.bool()?;
        let pipeline = read_words(reader, 2)?;
        self.halted = halted;
        self.intr_wait = intr_wait;
        self.flush = flush;
        self.pipeline = [pipeline[0], pipeline[1]];
        assert(self.pipeline@ =~= words_at(b, p + 5, 2));
        Ok(())
    }
}

impl Snapshot for Cpu {
    fn save(&self, writer: &mut Writer)
        ensures
            final(writer).data@ == old(writer).data@ + cpu_bytes(self),
    {
        self.save_head(writer);
        self.save_banks(writer);
        self.save_tail(writer);
        assert(writer.data@ =~= old(writer).data@ + cpu_bytes(self));
    }

    /// Loads every field; only running out of data fails, and then the
    /// processor is left as it was.
    fn load(&mut self, reader: &mut Reader) -> (result: Result<(), StateError>)
        ensures
            final(reader).bytes() == old(reader).bytes(),
            result is Ok ==> old(reader).fits(204) && old(reader).advanced(&*final(reader), 204)
                && cpu_decoded(&*final(self), old(reader).bytes(), old(reader).pos()),
            result is Err ==> !old(reader).fits(204) && *final(self) == *old(self),
            forall|saved: Cpu, rest: Seq<u8>| #[trigger]
                old(reader).expects(cpu_bytes(&saved) + rest) ==> result is Ok && *final(self)
                    == saved && final(reader).expects(rest),
    {
        let ghost start = *reader;
        proof {
            assert forall|saved: Cpu| #[trigger] cpu_bytes(&saved).len() == 204 by {
                lemma_cpu_bytes_len(&saved);
            }
        }
        let mut next = *self;
        next.load_head(reader)?;
        next.load_banks(reader)?;
        next.load_tail(reader)?;
        *self = next;
        proof {
            assert forall|saved: Cpu, rest: Seq<u8>| #[trigger]
                start.expects(cpu_bytes(&saved) + rest) implies *self == saved && reader.expects(
                rest) by {
                lemma_expected_cpu(&*self, &saved, start.bytes(), start.pos(), rest);
            }
        }
        Ok(())
    }
}


proof fn lemma_le32_read(x: Seq<u8>, v: u32, y: Seq<u8>)
    ensures
        from_le32(x + le32(v) + y, x.len() as int) == v,
{
    crate::state::law_u32_round_trip(x, v);
    let a = x + le32(v) + y;
    let b = x + le32(v);
    let n = x.len() as int;
    assert(a[n] == b[n] && a[n + 1] == b[n + 1] && a[n + 2] == b[n + 2] && a[n + 3] == b[n + 3]);
}

proof fn lemma_le16_read(x: Seq<u8>, v: u16, y: Seq<u8>)
    ensures
        from_le16(x + le16(v) + y, x.len() as int) == v,
{
    crate::state::law_u16_round_trip(x, v);
    let a = x + le16(v) + y;
    let b = x + le16(v);
    let n = x.len() as int;
    assert(a[n] == b[n] && a[n + 1] == b[n + 1]);
}

proof fn lemma_words_read(x: Seq<u8>, w: Seq<u32>, y: Seq<u8>)
    ensures
        words_at(x + words_bytes(w) + y, x.len() as int, w.len()) == w,
    decreases w.len(),
{
    if w.len() > 0 {
        let init = w.drop_last();
        let last = w.last();
        lemma_words_bytes_len(init);
        lemma_words_read(x, init, le32(last) + y);
        assert(x + words_bytes(w) + y =~= x + words_bytes(init) + (le32(last) + y));
        assert(x + words_bytes(w) + y =~= (x + words_bytes(init)) + le32(last) + y);
        lemma_le32_read(x + words_bytes(init), last, y);
        let whole = x + words_bytes(w) + y;
        let split = x + words_bytes(init) + (le32(last) + y);
        assert(whole == split);
        assert(whole == (x + words_bytes(init)) + le32(last) + y);
        let n = x.len() as int;
        assert forall|i: int| 0 <= i < w.len() implies #[trigger] words_at(whole, n, w.len())[i]
            == w[i] by {
            if i < init.len() {
                assert(words_at(split, n, init.len())[i] == init[i]);
                assert(words_at(whole, n, w.len())[i] == from_le32(whole, n + 4 * i));
            } else {
                assert(i == init.len());
                assert(n + 4 * i == (x + words_bytes(init)).len());
            }
        }
        assert(words_at(whole, n, w.len()) =~= w);
    } else {
        assert(words_at(x + words_bytes(w) + y, x.len() as int, w.len()) =~= w);
    }
}

proof fn lemma_head_round_trip(cpu: &Cpu, x: Seq<u8>, y: Seq<u8>)
    ensures
        head_decoded(cpu, x + head_bytes(cpu) + y, x.len() as int),
{
    let p = x.len() as int;
    let b = x + head_bytes(cpu) + y;
    let r = words_bytes(cpu.r@);
    let flags = seq![
        bool_byte(cpu.n),
        bool_byte(cpu.z),
        bool_byte(cpu.c),
        bool_byte(cpu.v),
        bool_byte(cpu.irq_disable),
        bool_byte(cpu.fiq_disable),
        bool_byte(cpu.thumb),
    ];
    lemma_words_bytes_len(cpu.r@);
    let rest = flags + le32(cpu.mode) + le32(cpu.spsr) + y;
    assert(b =~= x + r + rest);
    lemma_words_read(x, cpu.r@, rest);
    assert(b =~= (x + r) + flags + (le32(cpu.mode) + le32(cpu.spsr) + y));
    assert(b[p + 64] == bool_byte(cpu.n));
    assert(b[p + 65] == bool_byte(cpu.z));
    assert(b[p + 66] == bool_byte(cpu.c));
    assert(b[p + 67] == bool_byte(cpu.v));
    assert(b[p + 68] == bool_byte(cpu.irq_disable));
    assert(b[p + 69] == bool_byte(cpu.fiq_disable));
    assert(b[p + 70] == bool_byte(cpu.thumb));
    assert(b =~= (x + r + flags) + le32(cpu.mode) + (le32(cpu.spsr) + y));
    lemma_le32_read(x + r + flags, cpu.mode, le32(cpu.spsr) + y);
    assert(b =~= (x + r + flags + le32(cpu.mode)) + le32(cpu.spsr) + y);
    lemma_le32_read(x + r + flags + le32(cpu.mode), cpu.spsr, y);
}

proof fn lemma_banks_round_trip(cpu: &Cpu, x: Seq<u8>, y: Seq<u8>)
    ensures
        banks_decoded(cpu, x + banks_bytes(cpu) + y, x.len() as int),
{
    let b = x + banks_bytes(cpu) + y;
    let saved = words_bytes(cpu.spsr_bank@);
    let banks = words_bytes(bank_words(cpu.banked_sp@, cpu.banked_lr@));
    let usr = words_bytes(cpu.usr_r8_12@);
    let fiq = words_bytes(cpu.fiq_r8_12@);
    lemma_words_bytes_len(cpu.spsr_bank@);
    lemma_words_bytes_len(bank_words(cpu.banked_sp@, cpu.banked_lr@));
    lemma_words_bytes_len(cpu.usr_r8_12@);
    lemma_words_bytes_len(cpu.fiq_r8_12@);
    assert(b =~= x + saved + (banks + usr + fiq + y));
    lemma_words_read(x, cpu.spsr_bank@, banks + usr + fiq + y);
    assert(b =~= (x + saved) + banks + (usr + fiq + y));
    lemma_words_read(x + saved, bank_words(cpu.banked_sp@, cpu.banked_lr@), usr + fiq + y);
    assert(b =~= (x + saved + banks) + usr + (fiq + y));
    lemma_words_read(x + saved + banks, cpu.usr_r8_12@, fiq + y);
    assert(b =~= (x + saved + banks + usr) + fiq + y);
    lemma_words_read(x + saved + banks + usr, cpu.fiq_r8_12@, y);
}

proof fn lemma_tail_round_trip(cpu: &Cpu, x: Seq<u8>, y: Seq<u8>)
    ensures
        tail_decoded(cpu, x + tail_bytes(cpu) + y, x.len() as int),
{
    let p = x.len() as int;
    let b = x + tail_bytes(cpu) + y;
    let pipeline = words_bytes(cpu.pipeline@);
    lemma_words_bytes_len(cpu.pipeline@);
    let value: u16 = match cpu.intr_wait {
        Some(v) => v,
        None => 0,
    };
    let present = option16_bytes(cpu.intr_wait)[0];
    assert(option16_bytes(cpu.intr_wait) =~= seq![present] + le16(value));
    let front = x + seq![bool_byte(cpu.halted), present];
    assert(b =~= front + le16(value) + (seq![bool_byte(cpu.flush)] + pipeline + y));
    assert(b[p] == bool_byte(cpu.halted));
    assert(b[p + 1] == present);
    lemma_le16_read(front, value, seq![bool_byte(cpu.flush)] + pipeline + y);
    let before = front + le16(value) + seq![bool_byte(cpu.flush)];
    assert(b =~= before + pipeline + y);
    assert(b[p + 4] == bool_byte(cpu.flush));
    lemma_words_read(before, cpu.pipeline@, y);
}

/// A processor decoded from where another one's bytes were is that
/// processor, and the bytes after it are what followed.
proof fn lemma_expected_cpu(loaded: &Cpu, saved: &Cpu, b: Seq<u8>, p: int, rest: Seq<u8>)
    requires
        0 <= p,
        p + cpu_bytes(saved).len() + rest.len() <= b.len(),
        b.subrange(p, p + cpu_bytes(saved).len() + rest.len()) == cpu_bytes(saved) + rest,
        cpu_decoded(loaded, b, p),
    ensures
        *loaded == *saved,
        b.subrange(p + 204, p + 204 + rest.len()) == rest,
{
    lemma_cpu_bytes_len(saved);
    crate::state::lemma_expects_split(b, p, cpu_bytes(saved), rest);
    let prefix = b.subrange(0, p);
    let suffix = b.subrange(p + 204, b.len() as int);
    assert(b =~= prefix + cpu_bytes(saved) + suffix);
    law_cpu_state_round_trip(saved, prefix, suffix);
    lemma_decoded_unique(loaded, saved, b, p);
}

/// The bytes of a state fix every field of the processor they decode to.
proof fn lemma_decoded_unique(a: &Cpu, c: &Cpu, b: Seq<u8>, p: int)
    requires
        cpu_decoded(a, b, p),
        cpu_decoded(c, b, p),
    ensures
        *a == *c,
{
    assert(a.r =~= c.r) by {
        assert forall|i: int| 0 <= i < 16 implies a.r[i] == c.r[i] by {
            assert(a.r@[i] == c.r@[i]);
        }
    }
    assert(a.spsr_bank =~= c.spsr_bank) by {
        assert forall|i: int| 0 <= i < 6 implies a.spsr_bank[i] == c.spsr_bank[i] by {
            assert(a.spsr_bank@[i] == c.spsr_bank@[i]);
        }
    }
    let wa = bank_words(a.banked_sp@, a.banked_lr@);
    let wc = bank_words(c.banked_sp@, c.banked_lr@);
    assert(a.banked_sp =~= c.banked_sp) by {
        assert forall|i: int| 0 <= i < 6 implies a.banked_sp[i] == c.banked_sp[i] by {
            assert(wa[2 * i] == wc[2 * i]);
        }
    }
    assert(a.banked_lr =~= c.banked_lr) by {
        assert forall|i: int| 0 <= i < 6 implies a.banked_lr[i] == c.banked_lr[i] by {
            assert(wa[2 * i + 1] == wc[2 * i + 1]);
        }
    }
    assert(a.usr_r8_12 =~= c.usr_r8_12) by {
        assert forall|i: int| 0 <= i < 5 implies a.usr_r8_12[i] == c.usr_r8_12[i] by {
            assert(a.usr_r8_12@[i] == c.usr_r8_12@[i]);
        }
    }
    assert(a.fiq_r8_12 =~= c.fiq_r8_12) by {
        assert forall|i: int| 0 <= i < 5 implies a.fiq_r8_12[i] == c.fiq_r8_12[i] by {
            assert(a.fiq_r8_12@[i] == c.fiq_r8_12@[i]);
        }
    }
    assert(a.pipeline =~= c.pipeline) by {
        assert forall|i: int| 0 <= i < 2 implies a.pipeline[i] == c.pipeline[i] by {
            assert(a.pipeline@[i] == c.pipeline@[i]);
        }
    }
}

/// A saved processor loads back as itself: every field a load reads from
/// the bytes `save` wrote is the field that was saved.
pub proof fn law_cpu_state_round_trip(cpu: &Cpu, prefix: Seq<u8>, suffix: Seq<u8>)
    ensures
        cpu_decoded(cpu, prefix + cpu_bytes(cpu) + suffix, prefix.len() as int),
{
    let b = prefix + cpu_bytes(cpu) + suffix;
    lemma_cpu_bytes_len(cpu);
    lemma_words_bytes_len(cpu.r@);
    assert(head_bytes(cpu).len() == 79);
    assert(banks_bytes(cpu).len() == 112) by {
        lemma_words_bytes_len(cpu.spsr_bank@);
        lemma_words_bytes_len(bank_words(cpu.banked_sp@, cpu.banked_lr@));
        lemma_words_bytes_len(cpu.usr_r8_12@);
        lemma_words_bytes_len(cpu.fiq_r8_12@);
    }
    assert(b =~= prefix + head_bytes(cpu) + (banks_bytes(cpu) + tail_bytes(cpu) + suffix));
    lemma_head_round_trip(cpu, prefix, banks_bytes(cpu) + tail_bytes(cpu) + suffix);
    assert(b =~= (prefix + head_bytes(cpu)) + banks_bytes(cpu) + (tail_bytes(cpu) + suffix));
    lemma_banks_round_trip(cpu, prefix + head_bytes(cpu), tail_bytes(cpu) + suffix);
    assert(b =~= (prefix + head_bytes(cpu) + banks_bytes(cpu)) + tail_bytes(cpu) + suffix);
    lemma_tail_round_trip(cpu, prefix + head_bytes(cpu) + banks_bytes(cpu), suffix);
}

} // verus!
