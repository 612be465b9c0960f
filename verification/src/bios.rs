//! High level BIOS: the SWI calls plus a small real-code interrupt stub.

use crate::bits::lemma_and_le_u32;
use crate::bus::{
    half_at, read16_done, read32_done, read8_done, store16_done, word_byte, write16_done, write32_done,
    write8_done, Bus,
};
use crate::cpu::{banked_state, switched, Cpu, MODE_IRQ, MODE_SVC, MODE_SYS};
use vstd::prelude::*;

verus! {

/// The words of the synthetic BIOS: spinning vectors, a branch to the IRQ
/// dispatcher, the stock dispatcher itself, and the word that follows it.
pub open spec fn hle_word(address: int) -> u32 {
    if address == 0x00 {
        0xea00_002e
    } else if address == 0x08 {
        0xe1a0_0000
    } else if address == 0x0c || address == 0x10 || address == 0x14 || address == 0x1c || address
        == 0xc0 {
        0xeaff_fffe
    } else if address == 0x18 {
        0xea00_0042
    } else if address == 0x128 {
        0xe92d_500f
    } else if address == 0x12c {
        0xe3a0_0301
    } else if address == 0x130 {
        0xe28f_e000
    } else if address == 0x134 {
        0xe510_f004
    } else if address == 0x138 {
        0xe8bd_500f
    } else if address == 0x13c {
        0xe25e_f004
    } else if address == 0x144 {
        0xe55e_c002
    } else {
        0
    }
}

/// Byte `index` of the synthetic BIOS, little-endian.
pub open spec fn hle_byte(index: int) -> u8 {
    word_byte(hle_word(index - index % 4), (index % 4) as u32)
}

fn put_word(image: &mut Vec<u8>, address: usize, word: u32)
    requires
        address % 4 == 0,
        address + 4 <= old(image)@.len(),
    ensures
        final(image)@.len() == old(image)@.len(),
        forall|i: int|
            0 <= i < final(image)@.len() ==> #[trigger] final(image)@[i] == if address <= i < address
                + 4 {
                word_byte(word, (i - address) as u32)
            } else {
                old(image)@[i]
            },
{
    image.set(address, word as u8);
    image.set(address + 1, (word >> 8u32) as u8);
    image.set(address + 2, (word >> 16u32) as u8);
    image.set(address + 3, (word >> 24u32) as u8);
    proof {
        lemma_word_bytes(word, 0);
    }
}

/// Builds a 16K BIOS image containing the interrupt dispatcher games rely on.
/// Everything else is handled by intercepting SWI in the core.
pub fn hle_image() -> (bios: Vec<u8>)
    ensures
        bios@.len() == 0x4000,
        forall|i: int| 0 <= i < 0x4000 ==> #[trigger] bios@[i] == hle_byte(i),
{
    let mut bios: Vec<u8> = vec![0u8; 0x4000];
    let addresses: [usize; 15] = [
        0x00,
        0x08,
        0x0c,
        0x10,
        0x14,
        0x18,
        0x1c,
        0xc0,
        0x128,
        0x12c,
        0x130,
        0x134,
        0x138,
        0x13c,
        0x144,
    ];
    let mut k: usize = 0;
    while k < 15
        invariant
            k <= 15,
            bios@.len() == 0x4000,
            addresses@ == seq![
                0x00usize,
                0x08,
                0x0c,
                0x10,
                0x14,
                0x18,
                0x1c,
                0xc0,
                0x128,
                0x12c,
                0x130,
                0x134,
                0x138,
                0x13c,
                0x144,
            ],
            forall|i: int|
                0 <= i < 0x4000 ==> #[trigger] bios@[i] == if exists|j: int| #![trigger addresses@[j]]
                    0 <= j < k && addresses@[j] <= i < addresses@[j] + 4 {
                    hle_byte(i)
                } else {
                    0u8
                },
        decreases 15 - k,
    {
        let address = addresses[k];
        put_word(&mut bios, address, hle_word_at(address));
        proof {
            assert forall|i: int| 0 <= i < 0x4000 implies #[trigger] bios@[i] == if exists|j: int| #![trigger addresses@[j]]
                0 <= j < k + 1 && addresses@[j] <= i < addresses@[j] + 4 {
                hle_byte(i)
            } else {
                0u8
            } by {
                if address <= i < address + 4 {
                    assert(addresses@[k as int] <= i < addresses@[k as int] + 4);
                    assert(i - i % 4 == address);
                } else {
                    if exists|j: int| #![trigger addresses@[j]] 0 <= j < k + 1 && addresses@[j] <= i < addresses@[j] + 4 {
                        let j = choose|j: int| #![trigger addresses@[j]]
                            0 <= j < k + 1 && addresses@[j] <= i < addresses@[j] + 4;
                        assert(j != k);
                    }
                }
            }
        }
        k = k + 1;
    }
    proof {
        assert forall|i: int| 0 <= i < 0x4000 implies #[trigger] bios@[i] == hle_byte(i) by {
            if !(exists|j: int| #![trigger addresses@[j]] 0 <= j < 15 && addresses@[j] <= i < addresses@[j] + 4) {
                let base = i - i % 4;
                assert(hle_word(base) == 0) by {
                    if hle_word(base) != 0 {
                        let j: int = if base == 0x00 {
                            0
                        } else if base == 0x08 {
                            1
                        } else if base == 0x0c {
                            2
                        } else if base == 0x10 {
                            3
                        } else if base == 0x14 {
                            4
                        } else if base == 0x18 {
                            5
                        } else if base == 0x1c {
                            6
                        } else if base == 0xc0 {
                            7
                        } else if base == 0x128 {
                            8
                        } else if base == 0x12c {
                            9
                        } else if base == 0x130 {
                            10
                        } else if base == 0x134 {
                            11
                        } else if base == 0x138 {
                            12
                        } else if base == 0x13c {
                            13
                        } else {
                            14
                        };
                        assert(addresses@[j] <= i < addresses@[j] + 4);
                    }
                }
                assert(word_byte(0, (i % 4) as u32) == 0) by {
                    let s = (i % 4) as u32;
                    lemma_word_bytes(0, s);
                }
            }
        }
    }
    bios
}

fn hle_word_at(address: usize) -> (word: u32)
    ensures
        word == hle_word(address as int),
{
    if address == 0x00 {
        0xea00_002e // b 0xc0
    } else if address == 0x08 {
        0xe1a0_0000 // nop (SWI is intercepted)
    } else if address == 0x0c || address == 0x10 || address == 0x14 || address == 0x1c || address
        == 0xc0 {
        0xeaff_fffe // b .
    } else if address == 0x18 {
        0xea00_0042 // b 0x128
    } else if address == 0x128 {
        0xe92d_500f // stmfd sp!, {r0-r3, r12, lr}
    } else if address == 0x12c {
        0xe3a0_0301 // mov   r0, #0x04000000
    } else if address == 0x130 {
        0xe28f_e000 // add   lr, pc, #0
    } else if address == 0x134 {
        0xe510_f004 // ldr   pc, [r0, #-4]
    } else if address == 0x138 {
        0xe8bd_500f // ldmfd sp!, {r0-r3, r12, lr}
    } else if address == 0x13c {
        0xe25e_f004 // subs  pc, lr, #4
    } else if address == 0x144 {
        // A game that reads the BIOS region from outside sees the last word
        // the BIOS prefetched, so keep the stock word that follows the handler.
        0xe55e_c002 // ldrb  r12, [lr, #-2]
    } else {
        0
    }
}

/// The magnitude of a signed word, as an unsigned word.
pub open spec fn magnitude(value: i32) -> int {
    if value < 0 {
        -(value as int)
    } else {
        value as int
    }
}

/// A signed integer as the word that holds it.
pub open spec fn word_of(value: int) -> u32 {
    ((value % 0x1_0000_0000 + 0x1_0000_0000) % 0x1_0000_0000) as u32
}

/// The quotient of a division truncating toward zero.
pub open spec fn truncated_quotient(dividend: i32, divisor: i32) -> int {
    let q = magnitude(dividend) / magnitude(divisor);
    if (dividend < 0) == (divisor < 0) {
        q
    } else {
        -q
    }
}

/// The integer square root.
pub open spec fn is_isqrt(root: u32, value: u32) -> bool {
    root * root <= value < (root + 1) * (root + 1)
}

/// SoftReset: the top of internal RAM cleared, the stacks set up and
/// execution restarted in system mode.
#[verifier::opaque]
pub open spec fn soft_reset_done(a: &Cpu, ab: &Bus, b: &Cpu, bb: &Bus) -> bool {
    &&& b.mode == MODE_SYS
    &&& b.r[13] == 0x0300_7f00
    &&& b.r[15] == if ab.iwram@[0x7ffa] != 0 {
            0x0200_0000u32
        } else {
            0x0800_0000u32
        }
    &&& forall|i: int| 0x7e00 <= i < 0x8000 ==> #[trigger] bb.iwram@[i] == 0
}

/// RegisterRamReset: the memories `r0` selects cleared and forced blank on.
#[verifier::opaque]
pub open spec fn ram_reset_done(a: &Cpu, ab: &Bus, b: &Cpu, bb: &Bus) -> bool {
    &&& *b == *a
    &&& a.r[0] & 0x01 != 0 ==> forall|i: int|
            0 <= i < 0x4_0000 ==> #[trigger] bb.ewram@[i] == 0
    &&& a.r[0] & 0x02 != 0 ==> forall|i: int|
            0 <= i < 0x7e00 ==> #[trigger] bb.iwram@[i] == 0
    &&& a.r[0] & 0x04 != 0 ==> forall|i: int|
            0 <= i < 0x400 ==> #[trigger] bb.ppu.palette@[i] == 0
    &&& a.r[0] & 0x08 != 0 ==> forall|i: int|
            0 <= i < 0x1_8000 ==> #[trigger] bb.ppu.vram@[i] == 0
    &&& a.r[0] & 0x10 != 0 ==> forall|i: int|
            0 <= i < 0x400 ==> #[trigger] bb.ppu.oam@[i] == 0
    &&& bb.ppu.dispcnt & 0x0080 != 0
}

/// CpuSet: the copy or fill `r0`..`r2` describe, unit by unit.
#[verifier::opaque]
pub open spec fn cpu_set_done(a: &Cpu, ab: &Bus, b: &Cpu, bb: &Bus) -> bool {
    &&& *b == *a
    &&& exists|buses: Seq<Bus>, mids: Seq<Bus>, values: Seq<u32>|
            #[trigger] cpu_set_traffic(buses, mids, values, &*ab, &*bb, &*a)
}

/// CpuFastSet: the word copy or fill `r0`..`r2` describe, in blocks of eight.
#[verifier::opaque]
pub open spec fn fast_set_done(a: &Cpu, ab: &Bus, b: &Cpu, bb: &Bus) -> bool {
    &&& *b == *a
    &&& exists|buses: Seq<Bus>, mids: Seq<Bus>, values: Seq<u32>|
            #[trigger] fast_set_traffic(buses, mids, values, &*ab, &*bb, &*a)
}

/// The Diff*UnFilter calls: each unit the sum of the ones before it.
#[verifier::opaque]
pub open spec fn diff_done(a: &Cpu, ab: &Bus, halfwords: bool, b: &Cpu, bb: &Bus) -> bool {
    &&& *b == *a
    &&& exists|reads: Seq<Bus>, units: Seq<u32>, header: u32, chain: Seq<Bus>, mid: Bus, half: u16|
            #[trigger] diff_traffic(
                reads,
                units,
                header,
                chain,
                mid,
                half,
                &*ab,
                &*bb,
                &*a,
                halfwords,
            )
}

/// HuffUnComp: the processor unchanged and, without EEPROM on the bus, the
/// decoded data written to `r1` when the header asks for Huffman data, and
/// nothing but timing changed when it does not.
#[verifier::opaque]
pub open spec fn huff_done(a: &Cpu, ab: &Bus, b: &Cpu, bb: &Bus) -> bool {
    &&& *b == *a
    &&& !crate::cart::is_eeprom_kind(ab.cart.kind) && !huff_header_ok(ab, a.r[0])
        ==> bb.same_but_timing(ab)
    &&& !crate::cart::is_eeprom_kind(ab.cart.kind) && huff_header_ok(ab, a.r[0]) ==> exists|
        before: Bus,
        chain: Seq<Bus>,
        mid: Bus,
        half: u16,
    |
        #[trigger] block_written(chain, mid, half, &before, bb, a.r[1], huff_output(ab, a.r[0]))
            && before.same_but_timing(ab)
}

/// RLUnComp changes no register but `r0`.
proof fn lemma_rl_done_registers(a: &Cpu, ab: &Bus, b: &Cpu, bb: &Bus)
    requires
        rl_done(a, ab, b, bb),
    ensures
        b.r@ == a.r@.update(0, b.r[0]),
        *b == (Cpu { r: b.r, ..*a }),
{
    reveal(rl_done);
}

/// HuffUnComp leaves the processor as it was.
proof fn lemma_huff_done_registers(a: &Cpu, ab: &Bus, b: &Cpu, bb: &Bus)
    requires
        huff_done(a, ab, b, bb),
    ensures
        *b == *a,
{
    reveal(huff_done);
}

/// LZ77UnComp, as far as stated: only `r0` of the processor changes.
#[verifier::opaque]
pub open spec fn lz77_done(a: &Cpu, ab: &Bus, b: &Cpu, bb: &Bus) -> bool {
    &&& b.r@ =~= a.r@.update(0, b.r[0])
    &&& *b == (Cpu { r: b.r, ..*a })
}

/// RLUnComp: only `r0` of the processor changes and, without EEPROM on the
/// bus, a header of another type leaves everything but timing alone, while
/// run-length data is expanded to `r1` and `r0` left past the runs read.
#[verifier::opaque]
pub open spec fn rl_done(a: &Cpu, ab: &Bus, b: &Cpu, bb: &Bus) -> bool {
    &&& b.r@ =~= a.r@.update(0, b.r[0])
    &&& *b == (Cpu { r: b.r, ..*a })
    &&& !crate::cart::is_eeprom_kind(ab.cart.kind) && crate::bus::peek32(ab, a.r[0] & !3u32) & 0xf0
        != 0x30 ==> bb.same_but_timing(ab) && *b == *a
    &&& !crate::cart::is_eeprom_kind(ab.cart.kind) && crate::bus::peek32(ab, a.r[0] & !3u32) & 0xf0
        == 0x30 ==> b.r[0] == rl_result(ab, a.r[0]).1 && exists|
        before: Bus,
        chain: Seq<Bus>,
        mid: Bus,
        half: u16,
    |
        #[trigger] block_written(chain, mid, half, &before, bb, a.r[1], rl_result(ab, a.r[0]).0)
            && before.same_but_timing(ab)
}

/// What the memory and reset calls do, before the BIOS word is latched:
/// each number as its call's own contract says.
pub open spec fn swi_effect(a: &Cpu, ab: &Bus, number: u8, b: &Cpu, bb: &Bus) -> bool {
    &&& number == 0x00 || number == 0x26 ==> soft_reset_done(a, ab, b, bb)
    &&& number == 0x01 ==> ram_reset_done(a, ab, b, bb)
    &&& number == 0x0b ==> cpu_set_done(a, ab, b, bb)
    &&& number == 0x0c ==> fast_set_done(a, ab, b, bb)
    &&& number == 0x11 || number == 0x12 ==> lz77_done(a, ab, b, bb)
    &&& number == 0x14 || number == 0x15 ==> rl_done(a, ab, b, bb)
    &&& number == 0x13 ==> huff_done(a, ab, b, bb)
    &&& number == 0x16 || number == 0x17 ==> diff_done(a, ab, false, b, bb)
    &&& number == 0x18 ==> diff_done(a, ab, true, b, bb)
}

impl Cpu {
    /// A software interrupt. With a real BIOS image it enters the BIOS's
    /// vector; otherwise the call is carried out here, and the bus is left
    /// holding the word the real BIOS leaves behind.
    #[verifier::rlimit(100)]
    #[verifier::spinoff_prover]
    pub fn software_interrupt(&mut self, bus: &mut Bus, number: u8)
        requires
            old(bus).wf(),
        ensures
            final(bus).wf(),
            !old(bus).use_hle_bios ==> *final(bus) == *old(bus) && final(self).mode == switched(
                banked_state(&*old(self)),
                MODE_SVC,
            ).mode && final(self).r[15] == 0x08 && final(self).spsr == old(self).cpsr_spec()
                && final(self).irq_disable && !final(self).thumb,
            old(bus).use_hle_bios ==> final(bus).bios_latch == 0xe3a0_2004,
            old(bus).use_hle_bios && (number == 0x02 || number == 0x03 || number == 0x27)
                ==> final(self).halted,
            old(bus).use_hle_bios && number == 0x06 ==> divided(
                &*old(self),
                &*final(self),
                old(self).r[0] as i32,
                old(self).r[1] as i32,
            ),
            old(bus).use_hle_bios && number == 0x07 ==> divided(
                &*old(self),
                &*final(self),
                old(self).r[1] as i32,
                old(self).r[0] as i32,
            ),
            old(bus).use_hle_bios && number == 0x08 ==> is_isqrt(final(self).r[0], old(self).r[0])
                && final(self).r@ == old(self).r@.update(0, final(self).r[0]),
            old(bus).use_hle_bios && number == 0x0d ==> final(self).r@ == old(self).r@.update(
                0,
                0xbaae_187f,
            ),
            old(bus).use_hle_bios && number == 0x05 ==> final(self).intr_wait == Some(1u16)
                && final(self).halted && !final(self).irq_disable && final(bus).master_enable
                && half_at(final(bus).iwram@, 0x7ff8) == half_at(old(bus).iwram@, 0x7ff8) & !1u16,
            old(bus).use_hle_bios && number == 0x04 ==> final(self).intr_wait == Some(
                old(self).r[1] as u16,
            ) && final(self).halted && !final(self).irq_disable && final(bus).master_enable,
            old(bus).use_hle_bios && number == 0x19 ==> final(bus).apu.bias == (old(bus).apu.bias
                & !0x3feu16) | (((old(self).r[0] & 0x3ff) as u16) << 1u16) & 0x3fe,
            old(bus).use_hle_bios && (number == 0x09 || number == 0x0a) ==> final(self).r@
                == old(self).r@.update(0, final(self).r[0]) && *final(self) == (Cpu {
                r: final(self).r,
                ..*old(self)
            }) && final(self).r[0] <= 0xffff,
            old(bus).use_hle_bios && number == 0x09 && old(self).r[0] as i16 == 0 ==> final(self).r[0]
                == 0,
            old(bus).use_hle_bios && number == 0x09 ==> final(self).r[0] == arc_tan_spec(
                old(self).r[0] as i16 as i32,
            ),
            old(bus).use_hle_bios && number == 0x0a ==> final(self).r[0] == arc_tan2_spec(
                old(self).r[1] as i16 as i32,
                old(self).r[0] as i16 as i32,
            ),
            old(bus).use_hle_bios && (number == 0x0e || number == 0x0f || number == 0x10 || number
                == 0x13) ==> *final(self) == *old(self),
            old(bus).use_hle_bios && (number == 0x14 || number == 0x15) ==> final(self).r@ == old(
                self).r@.update(0, final(self).r[0]) && *final(self) == (Cpu {
                r: final(self).r,
                ..*old(self)
            }),
            old(bus).use_hle_bios ==> exists|after: Bus|
                #[trigger] swi_effect(&*old(self), &*old(bus), number, &*final(self), &after)
                    && *final(bus) == (Bus { bios_latch: 0xe3a0_2004, ..after }),
    {
        if !bus.use_hle_bios {
            self.exception(0x08, MODE_SVC);
            return;
        }
        if number == 0x00 || number == 0x26 {
            self.soft_reset(bus);
        } else if number == 0x01 {
            self.register_ram_reset(bus);
        } else if number == 0x02 || number == 0x03 || number == 0x27 {
            self.halted = true;
        } else if number == 0x04 {
            let discard = self.r[0] != 0;
            let flags = self.r[1] as u16;
            self.begin_intr_wait(bus, discard, flags);
        } else if number == 0x05 {
            self.begin_intr_wait(bus, true, 1);
        } else if number == 0x06 {
            let dividend = self.r[0] as i32;
            let divisor = self.r[1] as i32;
            self.divide(dividend, divisor);
        } else if number == 0x07 {
            let dividend = self.r[1] as i32;
            let divisor = self.r[0] as i32;
            self.divide(dividend, divisor);
        } else if number == 0x08 {
            self.r[0] = isqrt(self.r[0]);
        } else if number == 0x09 {
            let value = self.r[0] as i16 as i32;
            self.r[0] = arc_tan(value);
        } else if number == 0x0a {
            let x = self.r[0] as i16 as i32;
            let y = self.r[1] as i16 as i32;
            self.r[0] = arc_tan2(y, x);
        } else if number == 0x0b {
            self.cpu_set(bus);
        } else if number == 0x0c {
            self.cpu_fast_set(bus);
        } else if number == 0x0d {
            self.r[0] = 0xbaae_187f;
        } else if number == 0x0e {
            self.bg_affine_set(bus);
        } else if number == 0x0f {
            self.obj_affine_set(bus);
        } else if 0x10 <= number && number <= 0x18 {
            self.decompress(bus, number);
        } else if number == 0x19 {
            let bias = (self.r[0] & 0x3ff) as u16;
            bus.apu.bias = (bus.apu.bias & !0x3feu16) | (bias << 1u16) & 0x3fe;
        }
        // 0x1f (MidiKey2Freq) and the sound driver entries are no-ops.
        // The real BIOS leaves this word on the bus when a SWI returns.
        let ghost after = *bus;
        proof {
            assert(swi_effect(&*old(self), &*old(bus), number, &*self, &after));
        }
        bus.set_bios_latch(0xe3a0_2004);
    }

    /// The unpacking and decompression calls, 0x10 to 0x18.
    fn decompress(&mut self, bus: &mut Bus, number: u8)
        requires
            old(bus).wf(),
            0x10 <= number <= 0x18,
        ensures
            final(bus).wf(),
            number == 0x10 || number == 0x13 ==> *final(self) == *old(self),
            number == 0x11 || number == 0x12 ==> lz77_done(
                &*old(self),
                &*old(bus),
                &*final(self),
                &*final(bus),
            ),
            number == 0x13 ==> huff_done(&*old(self), &*old(bus), &*final(self), &*final(bus)),
            number == 0x14 || number == 0x15 ==> rl_done(
                &*old(self),
                &*old(bus),
                &*final(self),
                &*final(bus),
            ) && final(self).r@ == old(self).r@.update(0, final(self).r[0]) && *final(self) == (Cpu {
                r: final(self).r,
                ..*old(self)
            }),
            number == 0x16 || number == 0x17 ==> diff_done(
                &*old(self),
                &*old(bus),
                false,
                &*final(self),
                &*final(bus),
            ),
            number == 0x18 ==> diff_done(&*old(self), &*old(bus), true, &*final(self), &*final(bus)),
    {
        if number == 0x10 {
            self.bit_unpack(bus);
        } else if number == 0x11 || number == 0x12 {
            self.lz77_uncomp(bus);
        } else if number == 0x13 {
            self.huff_uncomp(bus);
            proof {
                lemma_huff_done_registers(&*old(self), &*old(bus), &*self, &*bus);
            }
        } else if number == 0x14 || number == 0x15 {
            self.rl_uncomp(bus);
            proof {
                lemma_rl_done_registers(&*old(self), &*old(bus), &*self, &*bus);
            }
        } else if number == 0x16 || number == 0x17 {
            self.diff_unfilter(bus, false);
        } else {
            self.diff_unfilter(bus, true);
        }
    }

    /// IntrWait: optionally forget the flags already seen, then sleep with
    /// interrupts on until one of `flags` is reported.
    fn begin_intr_wait(&mut self, bus: &mut Bus, discard: bool, flags: u16)
        requires
            old(bus).wf(),
        ensures
            final(bus).wf(),
            final(self).intr_wait == Some(flags),
            final(self).halted,
            !final(self).irq_disable,
            final(self).r == old(self).r,
            final(bus).master_enable,
            discard ==> half_at(final(bus).iwram@, 0x7ff8) == half_at(old(bus).iwram@, 0x7ff8)
                & !flags,
    {
        if discard {
            let current = bus.bios_irq_flags();
            bus.set_bios_irq_flags(current & !flags);
            proof {
                let v = current & !flags;
                crate::bits::lemma_byte_pairs(0, v);
            }
        }
        bus.master_enable = true;
        self.irq_disable = false;
        self.intr_wait = Some(flags);
        self.halted = true;
    }

    /// SoftReset: clears the top of internal RAM, sets up the three stacks
    /// and restarts at the cartridge, or at work RAM when the flag at
    /// 0x03007FFA says so.
    fn soft_reset(&mut self, bus: &mut Bus)
        requires
            old(bus).wf(),
        ensures
            final(bus).wf(),
            soft_reset_done(&*old(self), &*old(bus), &*final(self), &*final(bus)),
    {
        proof {
            reveal(soft_reset_done);
        }
        let entry_flag = bus.iwram[0x7ffa];
        let mut index: usize = 0x7e00;
        while index < 0x8000
            invariant
                bus.wf(),
                0x7e00 <= index <= 0x8000,
                forall|i: int| 0x7e00 <= i < index ==> #[trigger] bus.iwram@[i] == 0,
            decreases 0x8000 - index,
        {
            bus.iwram.set(index, 0);
            index = index + 1;
        }
        self.r = [0; 16];
        self.switch_mode(MODE_SVC);
        self.r[13] = 0x0300_7fe0;
        self.switch_mode(MODE_IRQ);
        self.r[13] = 0x0300_7fa0;
        self.switch_mode(MODE_SYS);
        self.r[13] = 0x0300_7f00;
        self.thumb = false;
        self.irq_disable = false;
        self.halted = false;
        self.intr_wait = None;
        let target: u32 = if entry_flag != 0 {
            0x0200_0000
        } else {
            0x0800_0000
        };
        self.set_pc_external(target);
    }

    /// RegisterRamReset: clears the memories and register blocks `r0`
    /// selects, then turns on forced blank.
    #[verifier::rlimit(80)]
    fn register_ram_reset(&mut self, bus: &mut Bus)
        requires
            old(bus).wf(),
        ensures
            final(bus).wf(),
            ram_reset_done(&*old(self), &*old(bus), &*final(self), &*final(bus)),
    {
        proof {
            reveal(ram_reset_done);
        }
        let flags = self.r[0];
        if flags & 0x01 != 0 {
            clear(&mut bus.ewram, 0, 0x4_0000);
        }
        if flags & 0x02 != 0 {
            clear(&mut bus.iwram, 0, 0x7e00);
        }
        if flags & 0x04 != 0 {
            clear(&mut bus.ppu.palette, 0, 0x400);
        }
        if flags & 0x08 != 0 {
            clear(&mut bus.ppu.vram, 0, 0x1_8000);
        }
        if flags & 0x10 != 0 {
            clear(&mut bus.ppu.oam, 0, 0x400);
        }
        if flags & 0x20 != 0 {
            clear_io(bus, 0x120, 0x12c);
        }
        if flags & 0x40 != 0 {
            clear_io(bus, 0x060, 0x0a8);
        }
        if flags & 0x80 != 0 {
            clear_io(bus, 0x000, 0x060);
            clear_io(bus, 0x0b0, 0x100);
            clear_io(bus, 0x130, 0x140);
            clear_io(bus, 0x200, 0x20c);
        }
        let before = bus.ppu.dispcnt;
        bus.ppu.dispcnt = before | 0x0080;
        proof {
            crate::bits::lemma_control_bits(before);
        }
    }

    /// Div: quotient in r0, remainder in r1, the quotient's magnitude in r3;
    /// a zero divisor leaves everything alone.
    #[verifier::rlimit(50)]
    fn divide(&mut self, dividend: i32, divisor: i32)
        ensures
            divided(&*old(self), &*final(self), dividend, divisor),
    {
        if divisor == 0 {
            return;
        }
        let a: u32 = if dividend < 0 {
            0u32.wrapping_sub(dividend as u32)
        } else {
            dividend as u32
        };
        let b: u32 = if divisor < 0 {
            0u32.wrapping_sub(divisor as u32)
        } else {
            divisor as u32
        };
        proof {
            lemma_magnitude(dividend, a);
            lemma_magnitude(divisor, b);
        }
        let q = a / b;
        let r = a % b;
        let quotient = if (dividend < 0) == (divisor < 0) {
            q
        } else {
            0u32.wrapping_sub(q)
        };
        let remainder = if dividend < 0 {
            0u32.wrapping_sub(r)
        } else {
            r
        };
        proof {
            lemma_division(dividend, divisor, a, b, q, r);
        }
        self.r[0] = quotient;
        self.r[1] = remainder;
        self.r[3] = q;
    }
}

/// What Div leaves behind: nothing changes on a zero divisor; otherwise r0
/// holds the quotient truncated toward zero, r1 the remainder (with the
/// dividend's sign) and r3 the quotient's magnitude, each as a word.
pub open spec fn divided(before: &Cpu, after: &Cpu, dividend: i32, divisor: i32) -> bool {
    if divisor == 0 {
        *after == *before
    } else {
        let q = truncated_quotient(dividend, divisor);
        &&& after.r@ == before.r@.update(0, word_of(q)).update(
            1,
            word_of(dividend - q * divisor),
        ).update(3, (magnitude(dividend) / magnitude(divisor)) as u32)
        &&& *after == (Cpu { r: after.r, ..*before })
    }
}

proof fn lemma_magnitude(value: i32, unsigned: u32)
    requires
        unsigned == if value < 0 {
            0u32.wrapping_sub(value as u32)
        } else {
            value as u32
        },
    ensures
        unsigned == magnitude(value),
{
    if value < 0 {
        lemma_signed_magnitude(value);
    } else {
        lemma_signed_magnitude(value);
    }
}

proof fn lemma_division(dividend: i32, divisor: i32, a: u32, b: u32, q: u32, r: u32)
    requires
        a == magnitude(dividend),
        b == magnitude(divisor),
        divisor != 0,
        q == a / b,
        r == a % b,
    ensures
        (if (dividend < 0) == (divisor < 0) {
            q
        } else {
            0u32.wrapping_sub(q)
        }) == word_of(truncated_quotient(dividend, divisor)),
        (if dividend < 0 {
            0u32.wrapping_sub(r)
        } else {
            r
        }) == word_of(dividend - truncated_quotient(dividend, divisor) * divisor),
        q == magnitude(dividend) / magnitude(divisor),
{
    vstd::arithmetic::div_mod::lemma_fundamental_div_mod(a as int, b as int);
    let t = truncated_quotient(dividend, divisor);
    assert(a == b * q + r);
    assert(0 <= r < b);
    assert(q <= a) by {
        vstd::arithmetic::div_mod::lemma_div_is_ordered_by_denominator(a as int, 1, b as int);
    }
    if (dividend < 0) == (divisor < 0) {
        assert(t == q);
        if dividend < 0 {
            assert(dividend - t * divisor == -(r as int)) by (nonlinear_arith)
                requires
                    a == -(dividend as int),
                    b == -(divisor as int),
                    a == b * q + r,
                    t == q,
            ;
        } else {
            assert(dividend - t * divisor == r as int) by (nonlinear_arith)
                requires
                    a == dividend as int,
                    b == divisor as int,
                    a == b * q + r,
                    t == q,
            ;
        }
    } else {
        assert(t == -(q as int));
        if dividend < 0 {
            assert(dividend - t * divisor == -(r as int)) by (nonlinear_arith)
                requires
                    a == -(dividend as int),
                    b == divisor as int,
                    a == b * q + r,
                    t == -(q as int),
            ;
        } else {
            assert(dividend - t * divisor == r as int) by (nonlinear_arith)
                requires
                    a == dividend as int,
                    b == -(divisor as int),
                    a == b * q + r,
                    t == -(q as int),
            ;
        }
    }
}

/// The integer square root by bisection.
fn isqrt(value: u32) -> (root: u32)
    ensures
        is_isqrt(root, value),
{
    let x = value as u64;
    let mut low: u64 = 0;
    let mut high: u64 = 0x1_0000;
    assert(high * high > x) by (nonlinear_arith)
        requires
            high == 0x1_0000,
            x <= 0xffff_ffff,
    ;
    while high - low > 1
        invariant
            low < high <= 0x1_0000,
            low * low <= x,
            x < high * high,
            x <= 0xffff_ffff,
        decreases high - low,
    {
        let middle = low + (high - low) / 2;
        assert(middle * middle <= 0x1_0000_0000) by (nonlinear_arith)
            requires
                middle <= 0x1_0000,
        ;
        if middle * middle <= x {
            low = middle;
        } else {
            high = middle;
        }
    }
    assert(high == low + 1);
    low as u32
}

/// Angles are carried in 2^-48 of a turn; these are atan(2^-i) in that unit.
/// atan(2^-i) for i from 0 to 47, in 2^-48 of a turn.
pub open spec fn arctan_table() -> Seq<i64> {
    seq![
        35184372088832i64,
        20770547670515,
        10974586953444,
        5570871696862,
        2796246208089,
        1399486241028,
        699913886760,
        349978300884,
        174991820497,
        87496244017,
        43748163730,
        21874087080,
        10937044192,
        5468522177,
        2734261099,
        1367130551,
        683565276,
        341782638,
        170891319,
        85445659,
        42722830,
        21361415,
        10680707,
        5340354,
        2670177,
        1335088,
        667544,
        333772,
        166886,
        83443,
        41722,
        20861,
        10430,
        5215,
        2608,
        1304,
        652,
        326,
        163,
        81,
        41,
        20,
        10,
        5,
        3,
        1,
        1,
        0,
    ]
}

/// CORDIC vectoring from step `index` on: the vector is turned toward the
/// positive x axis by each step's angle in turn, and the angles it was
/// turned through are added up.
pub open spec fn cordic(vx: i64, vy: i64, angle: i64, index: int) -> i64
    decreases 48 - index,
{
    if index < 0 || index >= 48 {
        angle
    } else {
        let step = arctan_table()[index];
        let dx = vy >> (index as u32);
        let dy = vx >> (index as u32);
        if vy > 0 {
            cordic(vx.wrapping_add(dx), vy.wrapping_sub(dy), angle.wrapping_add(step), index + 1)
        } else {
            cordic(vx.wrapping_sub(dx), vy.wrapping_add(dy), angle.wrapping_sub(step), index + 1)
        }
    }
}

/// The direction of (x, y) in 2^-48 of a turn as `direction` computes it.
#[verifier::opaque]
pub open spec fn direction_spec(y: i32, x: i32) -> i64 {
    if y == 0 {
        if x >= 0 {
            0
        } else {
            0x8000_0000_0000i64
        }
    } else if x == 0 {
        if y > 0 {
            0x4000_0000_0000
        } else {
            -0x4000_0000_0000i64
        }
    } else {
        let vx = ((x as i64) * 0x4000_0000) as i64;
        let vy = ((y as i64) * 0x4000_0000) as i64;
        let angle = if vx < 0 {
            cordic(
                (-vx) as i64,
                (-vy) as i64,
                if y > 0 {
                    0x8000_0000_0000
                } else {
                    -0x8000_0000_0000i64
                },
                0,
            )
        } else {
            cordic(vx, vy, 0i64, 0)
        };
        if angle > 0x8000_0000_0000 {
            0x8000_0000_0000
        } else if angle < -0x8000_0000_0000 {
            -0x8000_0000_0000i64
        } else {
            angle
        }
    }
}

/// An angle in 2^-48 of a turn truncated toward zero to 2^-16 of a turn.
pub open spec fn truncated_units(angle: i64) -> i64 {
    if angle < 0 {
        (-(((-angle) as i64) >> 32u32)) as i64
    } else {
        angle >> 32u32
    }
}

/// An angle in 2^-48 of a turn rounded half away from zero to 2^-16 of a
/// turn.
pub open spec fn rounded_units(angle: i64) -> i64 {
    if angle < 0 {
        (-(((0x8000_0000 - angle) as i64) >> 32u32)) as i64
    } else {
        ((angle + 0x8000_0000) as i64) >> 32u32
    }
}

/// What ArcTan returns for `value`: the direction of (16384, value),
/// truncated toward zero to 2^-16 of a turn.
pub open spec fn arc_tan_spec(value: i32) -> u32 {
    turn_word(truncated_units(direction_spec(value, 0x4000)))
}

/// What ArcTan2 returns for (x, y): their direction, rounded to 2^-16 of a
/// turn.
pub open spec fn arc_tan2_spec(y: i32, x: i32) -> u32 {
    turn_word(rounded_units(direction_spec(y, x)))
}

/// A signed count of 2^-16 turns as the 16 bit value a register receives.
pub open spec fn turn_word(units: i64) -> u32 {
    (units as u32) & 0xffff
}

fn arctan_step(index: usize) -> (angle: i64)
    requires
        index < 48,
    ensures
        0 <= angle <= 0x2000_0000_0000,
        angle == arctan_table()[index as int],
{
    let table: [i64; 48] = [
        35184372088832,
        20770547670515,
        10974586953444,
        5570871696862,
        2796246208089,
        1399486241028,
        699913886760,
        349978300884,
        174991820497,
        87496244017,
        43748163730,
        21874087080,
        10937044192,
        5468522177,
        2734261099,
        1367130551,
        683565276,
        341782638,
        170891319,
        85445659,
        42722830,
        21361415,
        10680707,
        5340354,
        2670177,
        1335088,
        667544,
        333772,
        166886,
        83443,
        41722,
        20861,
        10430,
        5215,
        2608,
        1304,
        652,
        326,
        163,
        81,
        41,
        20,
        10,
        5,
        3,
        1,
        1,
        0,
    ];
    let angle = table[index];
    assert(table@ =~= arctan_table());
    assert(0 <= angle <= 0x2000_0000_0000) by {
        assert(forall|k: int| 0 <= k < 48 ==> 0 <= #[trigger] table@[k] <= 0x2000_0000_0000);
    }
    angle
}

/// The direction of (x, y) in 2^-48 of a turn, between minus and plus half
/// a turn, by CORDIC vectoring. The axes come out exact.
fn direction(y: i32, x: i32) -> (angle: i64)
    requires
        -0x8000 <= x <= 0x7fff,
        -0x8000 <= y <= 0x7fff,
    ensures
        -0x8000_0000_0000 <= angle <= 0x8000_0000_0000,
        y == 0 && x >= 0 ==> angle == 0,
        y == 0 && x < 0 ==> angle == 0x8000_0000_0000,
        x == 0 && y > 0 ==> angle == 0x4000_0000_0000,
        x == 0 && y < 0 ==> angle == -0x4000_0000_0000,
        angle == direction_spec(y, x),
{
    proof {
        reveal(direction_spec);
    }
    if y == 0 {
        return if x >= 0 {
            0
        } else {
            0x8000_0000_0000
        };
    }
    if x == 0 {
        return if y > 0 {
            0x4000_0000_0000
        } else {
            -0x4000_0000_0000
        };
    }
    let mut vx: i64 = (x as i64) * 0x4000_0000;
    let mut vy: i64 = (y as i64) * 0x4000_0000;
    let mut angle: i64 = 0;
    if vx < 0 {
        // Turn half way round first, so the vector starts in the right half.
        vx = -vx;
        vy = -vy;
        angle = if y > 0 {
            0x8000_0000_0000
        } else {
            -0x8000_0000_0000
        };
    }
    let ghost start = (vx, vy, angle);
    let mut index: usize = 0;
    while index < 48
        invariant
            index <= 48,
            cordic(vx, vy, angle, index as int) == cordic(start.0, start.1, start.2, 0),
        decreases 48 - index,
    {
        let step = arctan_step(index);
        let dx = vy >> (index as u32);
        let dy = vx >> (index as u32);
        if vy > 0 {
            vx = vx.wrapping_add(dx);
            vy = vy.wrapping_sub(dy);
            angle = angle.wrapping_add(step);
        } else {
            vx = vx.wrapping_sub(dx);
            vy = vy.wrapping_add(dy);
            angle = angle.wrapping_sub(step);
        }
        index = index + 1;
    }
    if angle > 0x8000_0000_0000 {
        0x8000_0000_0000
    } else if angle < -0x8000_0000_0000 {
        -0x8000_0000_0000
    } else {
        angle
    }
}

/// ArcTan: atan(value / 16384) as a 16 bit fraction of a turn, truncated.
fn arc_tan(value: i32) -> (result: u32)
    requires
        -0x8000 <= value <= 0x7fff,
    ensures
        result <= 0xffff,
        value == 0 ==> result == 0,
        result == arc_tan_spec(value),
{
    let angle = direction(value, 0x4000);
    // Truncate toward zero into units of 2^-16 of a turn.
    let units: i64 = if angle < 0 {
        let positive = -angle;
        proof {
            lemma_turn_units(positive);
        }
        -(positive >> 32u32)
    } else {
        proof {
            lemma_turn_units(angle);
        }
        angle >> 32u32
    };
    proof {
        lemma_and_le_u32(units as u32, 0xffff);
        lemma_units_word(units);
    }
    (units as u32) & 0xffff
}

/// ArcTan2: the direction of (x, y) as a 16 bit fraction of a turn, rounded.
fn arc_tan2(y: i32, x: i32) -> (result: u32)
    requires
        -0x8000 <= x <= 0x7fff,
        -0x8000 <= y <= 0x7fff,
    ensures
        result <= 0xffff,
        y == 0 && x >= 0 ==> result == 0,
        y == 0 && x < 0 ==> result == 0x8000,
        x == 0 && y > 0 ==> result == 0x4000,
        x == 0 && y < 0 ==> result == 0xc000,
        result == arc_tan2_spec(y, x),
{
    let angle = direction(y, x);
    // Round half away from zero into units of 2^-16 of a turn.
    let half: i64 = 0x8000_0000;
    let units: i64 = if angle < 0 {
        let positive = half - angle;
        proof {
            lemma_turn_units(positive);
        }
        -(positive >> 32u32)
    } else {
        let shifted = angle + half;
        proof {
            lemma_turn_units(shifted);
        }
        shifted >> 32u32
    };
    proof {
        lemma_and_le_u32(units as u32, 0xffff);
        lemma_units_word(units);
    }
    (units as u32) & 0xffff
}

/// ArcTan is the arc tangent of r0/16384 as the direction of the point
/// (16384, r0): it agrees with ArcTan2 of that point to within the one unit
/// that truncating rather than rounding can lose, modulo 2^16.
pub proof fn law_arc_tan_is_the_direction_of_its_point(value: i32)
    requires
        -0x8000 <= value <= 0x7fff,
    ensures
        ({
            let t = arc_tan_spec(value);
            let u = arc_tan2_spec(value, 0x4000);
            u == t || u == ((t + 1) as u32) & 0xffff || u == ((t + 0xffff) as u32) & 0xffff
        }),
{
    let a = direction_spec(value, 0x4000);
    reveal(direction_spec);
    lemma_round_near_truncate(a);
    let t = truncated_units(a);
    lemma_turn_word_steps(t);
}

/// Rounding half away from zero moves a truncated count of units by at
/// most one, away from zero.
proof fn lemma_round_near_truncate(a: i64)
    requires
        -0x8000_0000_0000 <= a <= 0x8000_0000_0000,
    ensures
        -0x8000 <= truncated_units(a) <= 0x8000,
        a >= 0 ==> rounded_units(a) == truncated_units(a) || rounded_units(a) == truncated_units(a)
            + 1,
        a < 0 ==> rounded_units(a) == truncated_units(a) || rounded_units(a) == truncated_units(a)
            - 1,
{
    if a >= 0 {
        let b = (a + 0x8000_0000) as i64;
        assert(0 <= (a >> 32u32) <= 0x8000 && (b >> 32u32 == a >> 32u32 || b >> 32u32 == (a >> 32u32)
            + 1)) by (bit_vector)
            requires
                0 <= a <= 0x8000_0000_0000,
                b == a + 0x8000_0000,
        ;
    } else {
        let p = (-a) as i64;
        let q = (0x8000_0000 - a) as i64;
        assert(0 <= (p >> 32u32) <= 0x8000 && (q >> 32u32 == p >> 32u32 || q >> 32u32 == (p
            >> 32u32) + 1)) by (bit_vector)
            requires
                0 < p <= 0x8000_0000_0000,
                q == p + 0x8000_0000,
        ;
    }
}

/// One more or one less unit is one more or one less in the low halfword.
proof fn lemma_turn_word_steps(t: i64)
    requires
        -0x8000 <= t <= 0x8000,
    ensures
        turn_word((t + 1) as i64) == ((turn_word(t) + 1) as u32) & 0xffff,
        turn_word((t - 1) as i64) == ((turn_word(t) + 0xffff) as u32) & 0xffff,
{
    let up = (t + 1) as i64;
    let down = (t - 1) as i64;
    let w = (t as u32) & 0xffff;
    assert((up as u32) & 0xffff == ((w + 1) as u32) & 0xffff && (down as u32) & 0xffff == ((w
        + 0xffff) as u32) & 0xffff) by (bit_vector)
        requires
            -0x8000 <= t <= 0x8000,
            up == t + 1,
            down == t - 1,
            w == (t as u32) & 0xffff,
    ;
}

/// Fills `memory[start..end]` with zeros.
fn clear(memory: &mut Vec<u8>, start: usize, end: usize)
    requires
        start <= end <= old(memory)@.len(),
    ensures
        final(memory)@.len() == old(memory)@.len(),
        forall|i: int|
            0 <= i < final(memory)@.len() ==> #[trigger] final(memory)@[i] == if start <= i < end {
                0u8
            } else {
                old(memory)@[i]
            },
{
    let mut index = start;
    while index < end
        invariant
            start <= index <= end,
            end <= memory@.len(),
            memory@.len() == old(memory)@.len(),
            forall|i: int|
                0 <= i < memory@.len() ==> #[trigger] memory@[i] == if start <= i < index {
                    0u8
                } else {
                    old(memory)@[i]
                },
        decreases end - index,
    {
        memory.set(index, 0);
        index = index + 1;
    }
}

/// The address of unit `k` of a run of `size`-byte units from `base`.
pub open spec fn unit_address(base: u32, size: int, k: int) -> u32 {
    ((base + size * k) % 0x1_0000_0000) as u32
}

/// A read of a word, or of a halfword (`value` then holds it zero-extended).
pub open spec fn unit_read(words: bool, bus: &Bus, address: u32, value: u32, after: &Bus) -> bool {
    if words {
        read32_done(bus, address, value, after)
    } else {
        value < 0x10000 && read16_done(bus, address, value as u16, after)
    }
}

/// A write of a word, or of the low halfword of `value`.
pub open spec fn unit_write(words: bool, bus: &Bus, address: u32, value: u32, after: &Bus) -> bool {
    if words {
        write32_done(bus, address, value, after)
    } else {
        write16_done(bus, address, value as u16, after)
    }
}

/// CpuSet's bus traffic: one read of the first unit at `source`, then for
/// each of `count` units a write to the next destination unit, of the unit
/// read from the next source unit (a copy) or of that first unit (a fill).
/// `buses[k]` is the bus before unit `k`, `mids[k]` after its read, and
/// `values` holds what was read, the first unit first.
pub open spec fn units_set(
    buses: Seq<Bus>,
    mids: Seq<Bus>,
    values: Seq<u32>,
    bus: &Bus,
    after: &Bus,
    words: bool,
    source: u32,
    destination: u32,
    count: int,
    fill: bool,
) -> bool {
    let size: int = if words {
        4
    } else {
        2
    };
    &&& buses.len() == count + 1
    &&& mids.len() == count
    &&& values.len() == count + 1
    &&& unit_read(words, bus, source, values[0], &buses[0])
    &&& buses[count] == *after
    &&& forall|k: int|
        0 <= k < count ==> if fill {
            &&& #[trigger] mids[k] == buses[k]
            &&& unit_write(words, &buses[k], unit_address(destination, size, k), values[0], &buses[k + 1])
        } else {
            &&& unit_read(words, &buses[k], unit_address(source, size, k), values[k + 1], &mids[k])
            &&& unit_write(words, &mids[k], unit_address(destination, size, k), values[k + 1], &buses[k + 1])
        }
}

/// The next unit is `size` bytes on, wrapping at the top of the address
/// space.
proof fn lemma_unit_step(base: u32, size: int, k: int)
    requires
        0 <= k,
        size == 1 || size == 2 || size == 4,
    ensures
        unit_address(base, size, k).wrapping_add(size as u32) == unit_address(base, size, k + 1),
{
    let m = 0x1_0000_0000int;
    vstd::arithmetic::div_mod::lemma_add_mod_noop(base + size * k, size, m);
    let x = (base + size * k) % m;
    assert(0 <= x < m) by {
        vstd::arithmetic::div_mod::lemma_mod_bound(base + size * k, m);
    }
    assert(base + size * (k + 1) == base + size * k + size) by (nonlinear_arith);
    if x + size >= m {
        assert((x + size) % m == x + size - m) by {
            vstd::arithmetic::div_mod::lemma_small_mod((x + size - m) as nat, m as nat);
            vstd::arithmetic::div_mod::lemma_mod_add_multiples_vanish(x + size - m, m);
        }
    } else {
        vstd::arithmetic::div_mod::lemma_small_mod((x + size) as nat, m as nat);
    }
    vstd::arithmetic::div_mod::lemma_small_mod(size as nat, m as nat);
}

/// Reads the first unit at `source`, then writes `count` units to ascending
/// destination units: each read from the next source unit, or the first
/// unit over again when filling.
#[verifier::spinoff_prover]
#[verifier::rlimit(100)]
fn copy_units(bus: &mut Bus, words: bool, source: u32, destination: u32, count: u32, fill: bool)
    requires
        old(bus).wf(),
    ensures
        final(bus).wf(),
        exists|buses: Seq<Bus>, mids: Seq<Bus>, values: Seq<u32>|
            #[trigger] units_set(
                buses,
                mids,
                values,
                &*old(bus),
                &*final(bus),
                words,
                source,
                destination,
                count as int,
                fill,
            ),
{
    let size: u32 = if words {
        4
    } else {
        2
    };
    let first = if words {
        bus.read32(source)
    } else {
        bus.read16(source) as u32
    };
    let ghost mut buses: Seq<Bus> = seq![*bus];
    let ghost mut mids: Seq<Bus> = Seq::empty();
    let ghost mut values: Seq<u32> = seq![first];
    let mut value = first;
    let mut from = source;
    let mut to = destination;
    proof {
        vstd::arithmetic::div_mod::lemma_small_mod(source as nat, 0x1_0000_0000nat);
        vstd::arithmetic::div_mod::lemma_small_mod(destination as nat, 0x1_0000_0000nat);
    }
    let mut done: u32 = 0;
    while done < count
        invariant
            bus.wf(),
            done <= count,
            size == (if words {
                4u32
            } else {
                2u32
            }),
            buses.len() == done + 1,
            mids.len() == done,
            values.len() == done + 1,
            unit_read(words, &*old(bus), source, values[0], &buses[0]),
            buses.last() == *bus,
            fill ==> value == values[0],
            !fill ==> from == unit_address(source, size as int, done as int),
            to == unit_address(destination, size as int, done as int),
            forall|k: int|
                0 <= k < done ==> if fill {
                    &&& #[trigger] mids[k] == buses[k]
                    &&& unit_write(
                        words,
                        &buses[k],
                        unit_address(destination, size as int, k),
                        values[0],
                        &buses[k + 1],
                    )
                } else {
                    &&& unit_read(words, &buses[k], unit_address(source, size as int, k), values[k + 1], &mids[k])
                    &&& unit_write(
                        words,
                        &mids[k],
                        unit_address(destination, size as int, k),
                        values[k + 1],
                        &buses[k + 1],
                    )
                },
        decreases count - done,
    {
        let ghost before_buses = buses;
        let ghost before_mids = mids;
        let ghost before_values = values;
        if !fill {
            value = if words {
                bus.read32(from)
            } else {
                bus.read16(from) as u32
            };
        }
        proof {
            values = values.push(value);
            mids = mids.push(*bus);
        }
        if words {
            bus.write32(to, value);
        } else {
            bus.write16(to, value as u16);
        }
        proof {
            buses = buses.push(*bus);
            assert forall|k: int| 0 <= k < done + 1 implies if fill {
                &&& #[trigger] mids[k] == buses[k]
                &&& unit_write(words, &buses[k], unit_address(destination, size as int, k), values[0], &buses[k + 1])
            } else {
                &&& unit_read(words, &buses[k], unit_address(source, size as int, k), values[k + 1], &mids[k])
                &&& unit_write(words, &mids[k], unit_address(destination, size as int, k), values[k + 1], &buses[k + 1])
            } by {
                if k < done {
                    assert(buses[k] == before_buses[k]);
                    assert(buses[k + 1] == before_buses[k + 1]);
                    assert(mids[k] == before_mids[k]);
                    assert(values[k + 1] == before_values[k + 1]);
                }
            }
            lemma_unit_step(source, size as int, done as int);
            lemma_unit_step(destination, size as int, done as int);
        }
        if !fill {
            from = from.wrapping_add(size);
        }
        to = to.wrapping_add(size);
        done = done + 1;
    }
    assert(units_set(buses, mids, values, &*old(bus), &*bus, words, source, destination, count as int, fill));
}

/// CpuSet's traffic from the registers: halfwords, or words with bit 26 of
/// r2, from r0 to r1 (aligned down), `r2 & 0xfffff` of them, filling with
/// bit 24.
pub open spec fn cpu_set_traffic(
    buses: Seq<Bus>,
    mids: Seq<Bus>,
    values: Seq<u32>,
    bus: &Bus,
    after: &Bus,
    cpu: &Cpu,
) -> bool {
    let words = cpu.r[2] & 0x0400_0000 != 0;
    let mask: u32 = if words {
        !3u32
    } else {
        !1u32
    };
    units_set(
        buses,
        mids,
        values,
        bus,
        after,
        words,
        cpu.r[0] & mask,
        cpu.r[1] & mask,
        (cpu.r[2] & 0x000f_ffff) as int,
        cpu.r[2] & 0x0100_0000 != 0,
    )
}

/// CpuFastSet's traffic from the registers: words from r0 to r1 (aligned
/// down), `r2 & 0xfffff` of them but at least one, filling with bit 24.
pub open spec fn fast_set_traffic(
    buses: Seq<Bus>,
    mids: Seq<Bus>,
    values: Seq<u32>,
    bus: &Bus,
    after: &Bus,
    cpu: &Cpu,
) -> bool {
    units_set(
        buses,
        mids,
        values,
        bus,
        after,
        true,
        cpu.r[0] & !3u32,
        cpu.r[1] & !3u32,
        if cpu.r[2] & 0x000f_ffff == 0 {
            1
        } else {
            (cpu.r[2] & 0x000f_ffff) as int
        },
        cpu.r[2] & 0x0100_0000 != 0,
    )
}

/// The running sum of the first `k + 1` units, in eight bits.
pub open spec fn running8(units: Seq<u32>, k: int) -> u8
    decreases k + 1,
{
    if k < 0 {
        0
    } else {
        running8(units, k - 1).wrapping_add(units[k] as u8)
    }
}

/// The running sum of the first `k + 1` units, in sixteen bits.
pub open spec fn running16(units: Seq<u32>, k: int) -> u16
    decreases k + 1,
{
    if k < 0 {
        0
    } else {
        running16(units, k - 1).wrapping_add(units[k] as u16)
    }
}

/// Byte `i` of the unfiltered data: the running byte sum, or a byte of the
/// running halfword sum, low byte first.
pub open spec fn unfiltered_byte(units: Seq<u32>, halfwords: bool, i: int) -> u8 {
    if halfwords {
        if i % 2 == 0 {
            running16(units, i / 2) as u8
        } else {
            (running16(units, i / 2) >> 8u16) as u8
        }
    } else {
        running8(units, i)
    }
}

/// The first `size` bytes of unfiltered data.
pub open spec fn unfiltered(units: Seq<u32>, halfwords: bool, size: int) -> Seq<u8> {
    Seq::new(size as nat, |i: int| unfiltered_byte(units, halfwords, i))
}

/// A read of one filtered unit: a halfword, or a byte.
pub open spec fn diff_read(halfwords: bool, bus: &Bus, address: u32, value: u32, after: &Bus) -> bool {
    if halfwords {
        unit_read(false, bus, address, value, after)
    } else {
        value < 0x100 && read8_done(bus, address, value as u8, after)
    }
}

/// The unfilter SWIs' traffic: the header word read at r0 (aligned down),
/// whose bits 8 up give the size in bytes; the filtered units read in turn
/// after it, as many as the size needs; then the running sums written out
/// to r1 as `write_block` writes data.
pub open spec fn diff_traffic(
    reads: Seq<Bus>,
    units: Seq<u32>,
    header: u32,
    chain: Seq<Bus>,
    mid: Bus,
    half: u16,
    bus: &Bus,
    after: &Bus,
    cpu: &Cpu,
    halfwords: bool,
) -> bool {
    let source = cpu.r[0] & !3u32;
    let size = (header >> 8u32) as int;
    let count = if halfwords {
        (size + 1) / 2
    } else {
        size
    };
    let width: int = if halfwords {
        2
    } else {
        1
    };
    &&& reads.len() == count + 1
    &&& units.len() == count
    &&& read32_done(bus, source, header, &reads[0])
    &&& forall|k: int|
        0 <= k < count ==> #[trigger] diff_read(
            halfwords,
            &reads[k],
            unit_address(source.wrapping_add(4), width, k),
            units[k],
            &reads[k + 1],
        )
    &&& block_written(chain, mid, half, &reads[count], after, cpu.r[1], unfiltered(units, halfwords, size))
}

/// A running sum looks only at the units it has summed.
proof fn lemma_running_prefix(units: Seq<u32>, unit: u32)
    ensures
        forall|k: int| k < units.len() ==> #[trigger] running8(units.push(unit), k) == running8(units, k),
        forall|k: int|
            k < units.len() ==> #[trigger] running16(units.push(unit), k) == running16(units, k),
{
    assert forall|k: int| k < units.len() implies #[trigger] running8(units.push(unit), k) == running8(
        units,
        k,
    ) by {
        lemma_running_prefix_at(units, unit, k);
    }
    assert forall|k: int| k < units.len() implies #[trigger] running16(units.push(unit), k)
        == running16(units, k) by {
        lemma_running_prefix_at(units, unit, k);
    }
}

proof fn lemma_running_prefix_at(units: Seq<u32>, unit: u32, k: int)
    requires
        k < units.len(),
    ensures
        running8(units.push(unit), k) == running8(units, k),
        running16(units.push(unit), k) == running16(units, k),
    decreases k + 1,
{
    if k >= 0 {
        lemma_running_prefix_at(units, unit, k - 1);
        assert(units.push(unit)[k] == units[k]);
    }
}

/// Zero written to each I/O halfword from `start` up to `end`, in order,
/// through the bus states `chain`.
pub open spec fn io_cleared(chain: Seq<Bus>, bus: &Bus, after: &Bus, start: u32, end: u32) -> bool {
    let count = (end - start) / 2;
    &&& chain.len() == count + 1
    &&& chain[0] == *bus
    &&& chain[count] == *after
    &&& forall|k: int|
        0 <= k < count ==> #[trigger] store16_done(
            &chain[k],
            ((0x0400_0000 + start + 2 * k) as u32) & !1u32,
            0,
            false,
            &chain[k + 1],
        )
}

/// Writes zero to every IO halfword in `[start, end)`.
#[verifier::spinoff_prover]
#[verifier::rlimit(60)]
fn clear_io(bus: &mut Bus, start: u32, end: u32)
    requires
        old(bus).wf(),
        start % 2 == 0,
        end % 2 == 0,
        start <= end <= 0x400,
    ensures
        final(bus).wf(),
        final(bus).same_video_and_ram(&*old(bus)),
        exists|chain: Seq<Bus>| #[trigger] io_cleared(chain, &*old(bus), &*final(bus), start, end),
{
    let mut offset = start;
    let ghost mut chain: Seq<Bus> = seq![*bus];
    while offset < end
        invariant
            bus.wf(),
            offset % 2 == 0,
            end % 2 == 0,
            start <= offset <= end <= 0x400,
            bus.same_video_and_ram(&*old(bus)),
            offset == start + 2 * (chain.len() - 1),
            chain.len() >= 1,
            chain[0] == *old(bus),
            chain.last() == *bus,
            forall|k: int|
                0 <= k < chain.len() - 1 ==> #[trigger] store16_done(
                    &chain[k],
                    ((0x0400_0000 + start + 2 * k) as u32) & !1u32,
                    0,
                    false,
                    &chain[k + 1],
                ),
        decreases end - offset,
    {
        proof {
            lemma_io_address(offset);
        }
        let ghost before = chain;
        bus.write16_raw(0x0400_0000 + offset, 0);
        proof {
            chain = chain.push(*bus);
            assert forall|k: int| 0 <= k < chain.len() - 1 implies #[trigger] store16_done(
                &chain[k],
                ((0x0400_0000 + start + 2 * k) as u32) & !1u32,
                0,
                false,
                &chain[k + 1],
            ) by {
                if k < before.len() - 1 {
                    assert(chain[k] == before[k]);
                    assert(chain[k + 1] == before[k + 1]);
                }
            }
        }
        offset = offset + 2;
    }
    assert(io_cleared(chain, &*old(bus), &*bus, start, end));
}

impl Cpu {
    /// CpuSet: copies or fills `r2 & 0xfffff` halfwords or words (bit 26)
    /// from `r0` to `r1`; bit 24 repeats the first unit.
    fn cpu_set(&mut self, bus: &mut Bus)
        requires
            old(bus).wf(),
        ensures
            final(bus).wf(),
            cpu_set_done(&*old(self), &*old(bus), &*final(self), &*final(bus)),
    {
        proof {
            reveal(cpu_set_done);
        }
        let control = self.r[2];
        let count = control & 0x000f_ffff;
        let fill = control & 0x0100_0000 != 0;
        let words = control & 0x0400_0000 != 0;
        let mask: u32 = if words {
            !3u32
        } else {
            !1u32
        };
        copy_units(bus, words, self.r[0] & mask, self.r[1] & mask, count, fill);
        proof {
            let (buses, mids, values) = choose|buses: Seq<Bus>, mids: Seq<Bus>, values: Seq<u32>|
                #[trigger] units_set(
                    buses,
                    mids,
                    values,
                    &*old(bus),
                    &*bus,
                    words,
                    self.r[0] & mask,
                    self.r[1] & mask,
                    count as int,
                    fill,
                );
            assert(cpu_set_traffic(buses, mids, values, &*old(bus), &*bus, &*old(self)));
        }
    }

    /// CpuFastSet: like CpuSet in words, at least one of them.
    fn cpu_fast_set(&mut self, bus: &mut Bus)
        requires
            old(bus).wf(),
        ensures
            final(bus).wf(),
            fast_set_done(&*old(self), &*old(bus), &*final(self), &*final(bus)),
    {
        proof {
            reveal(fast_set_done);
        }
        let source = self.r[0] & !3u32;
        let destination = self.r[1] & !3u32;
        let control = self.r[2];
        let count = if control & 0x000f_ffff == 0 {
            1
        } else {
            control & 0x000f_ffff
        };
        let fill = control & 0x0100_0000 != 0;
        copy_units(bus, true, source, destination, count, fill);
        proof {
            let (buses, mids, values) = choose|buses: Seq<Bus>, mids: Seq<Bus>, values: Seq<u32>|
                #[trigger] units_set(
                    buses,
                    mids,
                    values,
                    &*old(bus),
                    &*bus,
                    true,
                    source,
                    destination,
                    count as int,
                    fill,
                );
            assert(fast_set_traffic(buses, mids, values, &*old(bus), &*bus, &*old(self)));
        }
    }

    /// BgAffineSet: for `r2` entries, turns a texture origin, screen origin,
    /// scale and angle at `r0` into a background matrix and reference point
    /// at `r1`.
    fn bg_affine_set(&mut self, bus: &mut Bus)
        requires
            old(bus).wf(),
        ensures
            final(bus).wf(),
            *final(self) == *old(self),
    {
        let mut source = self.r[0];
        let mut destination = self.r[1];
        let entries = self.r[2];
        let mut done: u32 = 0;
        while done < entries
            invariant
                bus.wf(),
                done <= entries,
            decreases entries - done,
        {
            let texture_x = bus.read32(source) as i32;
            let texture_y = bus.read32(source.wrapping_add(4)) as i32;
            let screen_x = bus.read16(source.wrapping_add(8)) as i16 as i32;
            let screen_y = bus.read16(source.wrapping_add(10)) as i16 as i32;
            let scale_x = bus.read16(source.wrapping_add(12)) as i16 as i32;
            let scale_y = bus.read16(source.wrapping_add(14)) as i16 as i32;
            let turn = bus.read16(source.wrapping_add(16));
            let angle = turn >> 8u16;
            proof {
                crate::bits::lemma_shift_bytes(turn, 0);
            }
            source = source.wrapping_add(20);
            let (sin, cos) = sin_cos(angle as usize);
            let pa = scaled(scale_x, cos);
            let pb = scaled(scale_x, -sin);
            let pc = scaled(scale_y, sin);
            let pd = scaled(scale_y, cos);
            bus.write16(destination, pa as u16);
            bus.write16(destination.wrapping_add(2), pb as u16);
            bus.write16(destination.wrapping_add(4), pc as u16);
            bus.write16(destination.wrapping_add(6), pd as u16);
            let start_x = texture_x.wrapping_sub(
                pa.wrapping_mul(screen_x).wrapping_add(pb.wrapping_mul(screen_y)),
            );
            let start_y = texture_y.wrapping_sub(
                pc.wrapping_mul(screen_x).wrapping_add(pd.wrapping_mul(screen_y)),
            );
            bus.write32(destination.wrapping_add(8), start_x as u32);
            bus.write32(destination.wrapping_add(12), start_y as u32);
            destination = destination.wrapping_add(16);
            done = done + 1;
        }
    }

    /// ObjAffineSet: for `r2` entries, turns a scale and angle at `r0` into
    /// the four matrix halfwords at `r1`, `r3` bytes apart.
    fn obj_affine_set(&mut self, bus: &mut Bus)
        requires
            old(bus).wf(),
        ensures
            final(bus).wf(),
            *final(self) == *old(self),
    {
        let mut source = self.r[0];
        let mut destination = self.r[1];
        let stride = self.r[3];
        let entries = self.r[2];
        let mut done: u32 = 0;
        while done < entries
            invariant
                bus.wf(),
                done <= entries,
            decreases entries - done,
        {
            let scale_x = bus.read16(source) as i16 as i32;
            let scale_y = bus.read16(source.wrapping_add(2)) as i16 as i32;
            let turn = bus.read16(source.wrapping_add(4));
            let angle = turn >> 8u16;
            proof {
                crate::bits::lemma_shift_bytes(turn, 0);
            }
            source = source.wrapping_add(8);
            let (sin, cos) = sin_cos(angle as usize);
            let pa = scaled(scale_x, cos) as u16;
            let pb = scaled(scale_x, -sin) as u16;
            let pc = scaled(scale_y, sin) as u16;
            let pd = scaled(scale_y, cos) as u16;
            bus.write16(destination, pa);
            bus.write16(destination.wrapping_add(stride), pb);
            bus.write16(destination.wrapping_add(stride.wrapping_mul(2)), pc);
            bus.write16(destination.wrapping_add(stride.wrapping_mul(3)), pd);
            destination = destination.wrapping_add(stride.wrapping_mul(4));
            done = done + 1;
        }
    }

    /// BitUnPack: widens `length` bytes of 1, 2, 4 or 8 bit values at `r0`
    /// into 1 to 32 bit values at `r1`, adding an offset to each value (to
    /// zeros too when the offset word's top bit is set).
    fn bit_unpack(&mut self, bus: &mut Bus)
        requires
            old(bus).wf(),
        ensures
            final(bus).wf(),
            *final(self) == *old(self),
    {
        let source = self.r[0];
        let mut destination = self.r[1];
        let parameters = self.r[2];
        let length = bus.read16(parameters) as u32;
        let source_width = bus.read8(parameters.wrapping_add(2)) as u32;
        let destination_width = bus.read8(parameters.wrapping_add(3)) as u32;
        let offset_word = bus.read32(parameters.wrapping_add(4));
        let offset = offset_word & 0x7fff_ffff;
        let zero_offset = offset_word & 0x8000_0000 != 0;
        if !(source_width == 1 || source_width == 2 || source_width == 4 || source_width == 8) {
            return;
        }
        if !(destination_width == 1 || destination_width == 2 || destination_width == 4
            || destination_width == 8 || destination_width == 16 || destination_width == 32) {
            return;
        }
        let mask: u32 = if source_width == 1 {
            1
        } else if source_width == 2 {
            3
        } else if source_width == 4 {
            0xf
        } else {
            0xff
        };
        proof {
            lemma_and_le_u32(offset_word, 0x7fff_ffff);
        }
        let mut buffer: u32 = 0;
        let mut bits: u32 = 0;
        let mut index: u32 = 0;
        while index < length
            invariant
                bus.wf(),
                index <= length,
                bits < 32,
                bits % destination_width == 0,
                destination_width == 1 || destination_width == 2 || destination_width == 4
                    || destination_width == 8 || destination_width == 16 || destination_width == 32,
                source_width == 1 || source_width == 2 || source_width == 4 || source_width == 8,
                mask <= 0xff,
                offset <= 0x7fff_ffff,
            decreases length - index,
        {
            let byte = bus.read8(source.wrapping_add(index)) as u32;
            let mut consumed: u32 = 0;
            while consumed < 8
                invariant
                    bus.wf(),
                    consumed <= 8,
                    bits < 32,
                    bits % destination_width == 0,
                    destination_width == 1 || destination_width == 2 || destination_width == 4
                        || destination_width == 8 || destination_width == 16 || destination_width
                        == 32,
                    source_width == 1 || source_width == 2 || source_width == 4 || source_width
                        == 8,
                    mask <= 0xff,
                    consumed % source_width == 0,
                    offset <= 0x7fff_ffff,
                decreases 8 - consumed,
            {
                let value = (byte >> consumed) & mask;
                proof {
                    lemma_and_le_u32(byte >> consumed, mask);
                }
                proof {
                    lemma_width_step_in(consumed, source_width, 8);
                    lemma_width_step(bits, destination_width);
                }
                consumed = consumed + source_width;
                let value = if value != 0 || zero_offset {
                    value + offset
                } else {
                    0
                };
                buffer = buffer | (value << bits);
                bits = bits + destination_width;
                if bits == 32 {
                    bus.write32(destination, buffer);
                    destination = destination.wrapping_add(4);
                    buffer = 0;
                    bits = 0;
                }
            }
            index = index + 1;
        }
        if bits > 0 {
            bus.write32(destination, buffer);
        }
    }
}

proof fn lemma_width_step_in(used: u32, width: u32, total: u32)
    requires
        width == 1 || width == 2 || width == 4 || width == 8,
        total == 8,
        used < total,
        used % width == 0,
    ensures
        used + width <= total,
{
}

proof fn lemma_width_step(bits: u32, width: u32)
    requires
        width == 1 || width == 2 || width == 4 || width == 8 || width == 16 || width == 32,
        bits <= 32,
        bits % width == 0,
    ensures
        bits < 32 ==> bits + width <= 32,
{
}

/// Sine and cosine of `angle` 256ths of a turn, in units of 2^-30.
fn sin_cos(angle: usize) -> (result: (i64, i64))
    requires
        angle < 256,
    ensures
        -0x4000_0000 <= result.0 <= 0x4000_0000,
        -0x4000_0000 <= result.1 <= 0x4000_0000,
        angle == 0 ==> result == (0i64, 0x4000_0000i64),
{
    let quarter: [i64; 65] = [
        1073741824, 1073418433, 1072448455, 1070832474, 1068571464, 1065666786, 1062120190,
        1057933813, 1053110176, 1047652185, 1041563127, 1034846671, 1027506862, 1019548121,
        1010975242, 1001793390, 992008094, 981625251, 970651112, 959092290, 946955747, 934248793,
        920979082, 907154608, 892783698, 877875009, 862437520, 846480531, 830013654, 813046808,
        795590213, 777654384, 759250125, 740388522, 721080937, 701339000, 681174602, 660599890,
        639627258, 618269338, 596538995, 574449320, 552013618, 529245404, 506158392, 482766489,
        459083786, 435124548, 410903207, 386434353, 361732726, 336813204, 311690799, 286380643,
        260897982, 235258165, 209476638, 183568930, 157550647, 131437462, 105245103, 78989349,
        52686014, 26350943, 0,
    ];
    assert(forall|k: int| 0 <= k < 65 ==> 0 <= #[trigger] quarter@[k] <= 0x4000_0000);
    assert(quarter@[0] == 0x4000_0000 && quarter@[64] == 0);
    let cos = cosine(&quarter, angle);
    let sin = cosine(&quarter, (angle + 192) % 256);
    (sin, cos)
}

/// cos(angle * 2pi / 256) from a quarter wave table.
fn cosine(quarter: &[i64; 65], angle: usize) -> (value: i64)
    requires
        angle < 256,
        forall|k: int| 0 <= k < 65 ==> 0 <= #[trigger] quarter@[k] <= 0x4000_0000,
    ensures
        -0x4000_0000 <= value <= 0x4000_0000,
        angle == 0 ==> value == quarter@[0],
        angle == 192 ==> value == -quarter@[64],
{
    if angle <= 64 {
        quarter[angle]
    } else if angle <= 128 {
        -quarter[128 - angle]
    } else if angle <= 192 {
        -quarter[angle - 128]
    } else {
        quarter[256 - angle]
    }
}

/// A 1.8 fixed point scale times a 2^-30 fraction, truncated toward zero
/// into 8.8 fixed point.
fn scaled(scale: i32, fraction: i64) -> (result: i32)
    requires
        -0x8000 <= scale <= 0x7fff,
        -0x4000_0000 <= fraction <= 0x4000_0000,
    ensures
        fraction == 0x4000_0000 ==> result == scale,
        fraction == 0 ==> result == 0,
{
    proof {
        let wide = scale as i64;
        assert(-0x2000_0000_0000 <= wide * fraction <= 0x2000_0000_0000) by (nonlinear_arith)
            requires
                -0x8000 <= wide <= 0x7fff,
                -0x4000_0000 <= fraction <= 0x4000_0000,
        ;
    }
    let product = (scale as i64) * fraction;
    let magnitude: i64 = if product < 0 {
        (-product) / 0x4000_0000
    } else {
        product / 0x4000_0000
    };
    proof {
        if fraction == 0x4000_0000 {
            assert(product == scale * 0x4000_0000);
            if product < 0 {
                assert((-product) / 0x4000_0000 == -scale) by (nonlinear_arith)
                    requires
                        product == scale * 0x4000_0000,
                        product < 0,
                ;
            } else {
                assert(product / 0x4000_0000 == scale) by (nonlinear_arith)
                    requires
                        product == scale * 0x4000_0000,
                        product >= 0,
                ;
            }
        }
        assert(magnitude <= 0x8000) by (nonlinear_arith)
            requires
                -0x2000_0000_0000 <= product <= 0x2000_0000_0000,
                magnitude == if product < 0 {
                    (-product) / 0x4000_0000
                } else {
                    product / 0x4000_0000
                },
        ;
    }
    if product < 0 {
        -(magnitude as i32)
    } else {
        magnitude as i32
    }
}


impl Cpu {
    /// LZ77UnComp: a header word (type 1, size above bit 8), then blocks of
    /// a flag byte and eight items, literal bytes for clear flags and
    /// back references (length 3-18, distance 1-4096) for set ones. r0 is
    /// left past the data read.
    fn lz77_uncomp(&mut self, bus: &mut Bus)
        requires
            old(bus).wf(),
        ensures
            final(bus).wf(),
            final(self).r@ == old(self).r@.update(0, final(self).r[0]),
            *final(self) == (Cpu { r: final(self).r, ..*old(self) }),
            lz77_done(&*old(self), &*old(bus), &*final(self), &*final(bus)),
    {
        proof {
            reveal(lz77_done);
        }
        let mut source = self.r[0] & !3u32;
        let destination = self.r[1];
        let header = bus.read32(source);
        source = source.wrapping_add(4);
        if header & 0xf0 != 0x10 {
            return;
        }
        let size = (header >> 8u32) as usize;
        proof {
            crate::bits::lemma_shift_bytes(0, header);
        }
        let mut output: Vec<u8> = Vec::new();
        while output.len() < size
            invariant
                bus.wf(),
                output@.len() <= size,
                size <= 0xff_ffff,
            decreases size - output@.len(),
        {
            let flags = bus.read8(source);
            source = source.wrapping_add(1);
            let start = output.len();
            let mut bit: u32 = 8;
            while bit > 0
                invariant
                    bus.wf(),
                    bit <= 8,
                    start < size,
                    start <= output@.len() <= size,
                    bit < 8 ==> output@.len() > start,
                    size <= 0xff_ffff,
                ensures
                    output@.len() > start,
                    output@.len() <= size,
                decreases bit,
            {
                bit = bit - 1;
                if output.len() >= size {
                    break;
                }
                if flags & (1u8 << bit as u8) == 0 {
                    let byte = bus.read8(source);
                    output.push(byte);
                    source = source.wrapping_add(1);
                } else {
                    let first = bus.read8(source) as usize;
                    let second = bus.read8(source.wrapping_add(1)) as usize;
                    source = source.wrapping_add(2);
                    proof {
                        lemma_lz77_token(first, second);
                    }
                    let length = (first >> 4usize) + 3;
                    let displacement = (((first & 0xf) << 8usize) | second) + 1;
                    let mut copied: usize = 0;
                    while copied < length && output.len() < size
                        invariant
                            start < size,
                            start <= output@.len() <= size,
                            copied <= length,
                            copied > 0 ==> output@.len() > start,
                            size <= 0xff_ffff,
                            displacement >= 1,
                            length >= 3,
                        decreases length - copied,
                    {
                        let byte = if displacement <= output.len() {
                            output[output.len() - displacement]
                        } else {
                            0
                        };
                        output.push(byte);
                        copied = copied + 1;
                    }
                }
            }
        }
        write_block(bus, destination, &output);
        self.r[0] = source;
    }

    /// RLUnComp: a header word (type 3, size above bit 8), then runs: a
    /// control byte with bit 7 set repeats the next byte `(c & 0x7f) + 3`
    /// times, otherwise `(c & 0x7f) + 1` literal bytes follow.
    #[verifier::rlimit(100)]
    #[verifier::spinoff_prover]
    fn rl_uncomp(&mut self, bus: &mut Bus)
        requires
            old(bus).wf(),
        ensures
            final(bus).wf(),
            rl_done(&*old(self), &*old(bus), &*final(self), &*final(bus)),
    {
        proof {
            reveal(rl_done);
        }
        let ghost a = *bus;
        let ghost plain = !crate::cart::is_eeprom_kind(a.cart.kind);
        let mut source = self.r[0] & !3u32;
        let destination = self.r[1];
        proof {
            if plain {
                lemma_same_reads(&a, &*bus);
            }
        }
        let header = bus.read32(source);
        proof {
            lemma_wrap_add(source, 4);
        }
        source = source.wrapping_add(4);
        if header & 0xf0 != 0x30 {
            return;
        }
        let size = (header >> 8u32) as usize;
        proof {
            crate::bits::lemma_shift_bytes(0, header);
        }
        let ghost target = rl_result(&a, self.r[0]);
        let mut output: Vec<u8> = Vec::new();
        while output.len() < size
            invariant
                bus.wf(),
                output@.len() <= size,
                size <= 0xff_ffff,
                plain == !crate::cart::is_eeprom_kind(a.cart.kind),
                plain ==> bus.same_but_timing(&a),
                plain ==> rl_expand(&a, source, output@, size as int) == target,
            decreases size - output@.len(),
        {
            proof {
                if plain {
                    lemma_same_reads(&a, &*bus);
                }
            }
            let ghost here = source;
            let ghost out0 = output@;
            let control = bus.read8(source);
            proof {
                lemma_wrap_add(source, 1);
            }
            source = source.wrapping_add(1);
            let ghost after = source;
            let start = output.len();
            if control & 0x80 != 0 {
                let count = (control & 0x7f) as usize + 3;
                proof {
                    if plain {
                        lemma_same_reads(&a, &*bus);
                    }
                }
                let value = bus.read8(source);
                proof {
                    lemma_wrap_add(source, 1);
                }
                source = source.wrapping_add(1);
                let mut done: usize = 0;
                while done < count && output.len() < size
                    invariant
                        start < size,
                        start == out0.len(),
                        start <= output@.len() <= size,
                        done <= count,
                        done > 0 ==> output@.len() > start,
                        count >= 1,
                        output@.len() == start + done,
                        output@ == out0 + Seq::new(done as nat, |i: int| value),
                    decreases count - done,
                {
                    output.push(value);
                    done = done + 1;
                    assert(output@ =~= out0 + Seq::new(done as nat, |i: int| value));
                }
                proof {
                    if plain {
                        lemma_same_reads(&a, &*bus);
                        assert(control == a.peek8(here) && value == a.peek8(after));
                        assert(advanced_by(here, 1) == after);
                        assert(advanced_by(after, 1) == source);
                    }
                }
            } else {
                let count = (control & 0x7f) as usize + 1;
                let mut done: usize = 0;
                proof {
                    assert(advanced_by(after, 0) == after) by {
                        vstd::arithmetic::div_mod::lemma_small_mod(after as nat, 0x1_0000_0000);
                    }
                }
                while done < count && output.len() < size
                    invariant
                        bus.wf(),
                        start < size,
                        start == out0.len(),
                        start <= output@.len() <= size,
                        done <= count,
                        done > 0 ==> output@.len() > start,
                        count >= 1,
                        output@.len() == start + done,
                        plain == !crate::cart::is_eeprom_kind(a.cart.kind),
                        plain ==> bus.same_but_timing(&a),
                        plain ==> output@ == out0 + Seq::new(
                            done as nat,
                            |i: int| a.peek8(advanced_by(after, i)),
                        ),
                        source == advanced_by(after, done as int),
                    decreases count - done,
                {
                    proof {
                        if plain {
                            lemma_same_reads(&a, &*bus);
                        }
                    }
                    let byte = bus.read8(source);
                    output.push(byte);
                    proof {
                        lemma_advance_step(after, done as int);
                        if plain {
                            lemma_same_reads(&a, &*bus);
                            assert(output@ =~= out0 + Seq::new(
                                (done + 1) as nat,
                                |i: int| a.peek8(advanced_by(after, i)),
                            ));
                        }
                    }
                    source = source.wrapping_add(1);
                    done = done + 1;
                }
                proof {
                    if plain {
                        assert(control == a.peek8(here));
                        assert(advanced_by(here, 1) == after);
                    }
                }
            }
        }
        let ghost before = *bus;
        write_block(bus, destination, &output);
        self.r[0] = source;
        proof {
            if plain {
                assert(rl_expand(&a, source, output@, size as int) == (output@, source));
                let (chain, mid, half) = choose|chain: Seq<Bus>, mid: Bus, half: u16|
                    #[trigger] block_written(chain, mid, half, &before, &*bus, destination, output@);
                assert(block_written(
                    chain,
                    mid,
                    half,
                    &before,
                    &*bus,
                    old(self).r[1],
                    rl_result(&*old(bus), old(self).r[0]).0,
                ) && before.same_but_timing(&*old(bus)));
            }
        }
    }

    /// Diff8bitUnFilter and Diff16bitUnFilter: each output unit is the sum
    /// of the input units so far.
    fn diff_unfilter(&mut self, bus: &mut Bus, halfwords: bool)
        requires
            old(bus).wf(),
        ensures
            final(bus).wf(),
            diff_done(&*old(self), &*old(bus), halfwords, &*final(self), &*final(bus)),
    {
        proof {
            reveal(diff_done);
        }
        let mut source = self.r[0] & !3u32;
        let destination = self.r[1];
        let header = bus.read32(source);
        source = source.wrapping_add(4);
        let ghost start = source;
        let size = (header >> 8u32) as usize;
        proof {
            crate::bits::lemma_shift_bytes(0, header);
            vstd::arithmetic::div_mod::lemma_small_mod(start as nat, 0x1_0000_0000nat);
        }
        let ghost mut reads: Seq<Bus> = seq![*bus];
        let ghost mut units: Seq<u32> = Seq::empty();
        let mut output: Vec<u8> = Vec::new();
        if halfwords {
            let mut previous: u16 = 0;
            while output.len() < size
                invariant
                    bus.wf(),
                    output@.len() <= size,
                    size <= 0xff_ffff,
                    size == header >> 8u32,
                    start == (old(self).r[0] & !3u32).wrapping_add(4),
                    read32_done(&*old(bus), old(self).r[0] & !3u32, header, &reads[0]),
                    reads.len() == units.len() + 1,
                    reads.last() == *bus,
                    source == unit_address(start, 2, units.len() as int),
                    previous == running16(units, units.len() - 1),
                    output@.len() == if 2 * units.len() <= size {
                        2 * units.len() as int
                    } else {
                        size as int
                    },
                    units.len() == 0 || 2 * (units.len() - 1) < size,
                    forall|k: int|
                        0 <= k < units.len() ==> #[trigger] diff_read(
                            true,
                            &reads[k],
                            unit_address(start, 2, k),
                            units[k],
                            &reads[k + 1],
                        ),
                    forall|i: int|
                        0 <= i < output@.len() ==> #[trigger] output@[i] == unfiltered_byte(units, true, i),
                decreases size - output@.len(),
            {
                let ghost before_reads = reads;
                let ghost before_units = units;
                let unit = bus.read16(source);
                previous = previous.wrapping_add(unit);
                proof {
                    reads = reads.push(*bus);
                    units = units.push(unit as u32);
                    lemma_running_prefix(before_units, unit as u32);
                    assert forall|k: int| 0 <= k < units.len() implies #[trigger] diff_read(
                        true,
                        &reads[k],
                        unit_address(start, 2, k),
                        units[k],
                        &reads[k + 1],
                    ) by {
                        if k < before_units.len() {
                            assert(reads[k] == before_reads[k]);
                            assert(reads[k + 1] == before_reads[k + 1]);
                            assert(units[k] == before_units[k]);
                        }
                    }
                    lemma_unit_step(start, 2, before_units.len() as int);
                }
                source = source.wrapping_add(2);
                let ghost before_output = output@;
                let ghost c = before_units.len() as int;
                proof {
                    assert(units[c] == unit as u32);
                    assert(units == before_units.push(unit as u32));
                    assert(running16(units, c - 1) == running16(before_units, c - 1));
                    assert(running16(units, c) == running16(units, c - 1).wrapping_add(units[c] as u16));
                    assert(running16(units, c) == running16(before_units, c - 1).wrapping_add(unit));
                    assert(before_output.len() == 2 * c);
                }
                output.push(previous as u8);
                if output.len() < size {
                    output.push((previous >> 8u16) as u8);
                }
                proof {
                    assert forall|i: int| 0 <= i < output@.len() implies #[trigger] output@[i]
                        == unfiltered_byte(units, true, i) by {
                        if i < 2 * c {
                            assert(output@[i] == before_output[i]);
                            assert(i / 2 < c);
                            assert(unfiltered_byte(before_units, true, i) == unfiltered_byte(units, true, i));
                        } else if i == 2 * c {
                            assert(i % 2 == 0 && i / 2 == c);
                        } else {
                            assert(i == 2 * c + 1);
                            assert(i % 2 == 1 && i / 2 == c);
                        }
                    }
                }
            }
            proof {
                assert(units.len() == (size + 1) / 2);
            }
        } else {
            let mut previous: u8 = 0;
            while output.len() < size
                invariant
                    bus.wf(),
                    output@.len() <= size,
                    size <= 0xff_ffff,
                    size == header >> 8u32,
                    start == (old(self).r[0] & !3u32).wrapping_add(4),
                    read32_done(&*old(bus), old(self).r[0] & !3u32, header, &reads[0]),
                    reads.len() == units.len() + 1,
                    reads.last() == *bus,
                    source == unit_address(start, 1, units.len() as int),
                    previous == running8(units, units.len() - 1),
                    output@.len() == units.len(),
                    forall|k: int|
                        0 <= k < units.len() ==> #[trigger] diff_read(
                            false,
                            &reads[k],
                            unit_address(start, 1, k),
                            units[k],
                            &reads[k + 1],
                        ),
                    forall|i: int|
                        0 <= i < output@.len() ==> #[trigger] output@[i] == unfiltered_byte(units, false, i),
                decreases size - output@.len(),
            {
                let ghost before_reads = reads;
                let ghost before_units = units;
                let unit = bus.read8(source);
                previous = previous.wrapping_add(unit);
                proof {
                    reads = reads.push(*bus);
                    units = units.push(unit as u32);
                    lemma_running_prefix(before_units, unit as u32);
                    assert forall|k: int| 0 <= k < units.len() implies #[trigger] diff_read(
                        false,
                        &reads[k],
                        unit_address(start, 1, k),
                        units[k],
                        &reads[k + 1],
                    ) by {
                        if k < before_units.len() {
                            assert(reads[k] == before_reads[k]);
                            assert(reads[k + 1] == before_reads[k + 1]);
                            assert(units[k] == before_units[k]);
                        }
                    }
                    lemma_unit_step(start, 1, before_units.len() as int);
                }
                source = source.wrapping_add(1);
                let ghost before_output = output@;
                let ghost c = before_units.len() as int;
                proof {
                    assert(units[c] == unit as u32);
                    assert(units == before_units.push(unit as u32));
                    assert(running8(units, c - 1) == running8(before_units, c - 1));
                    assert(running8(units, c) == running8(units, c - 1).wrapping_add(units[c] as u8));
                    assert(running8(units, c) == running8(before_units, c - 1).wrapping_add(unit));
                }
                output.push(previous);
                proof {
                    assert forall|i: int| 0 <= i < output@.len() implies #[trigger] output@[i]
                        == unfiltered_byte(units, false, i) by {
                        if i < c {
                            assert(output@[i] == before_output[i]);
                            assert(unfiltered_byte(before_units, false, i) == unfiltered_byte(units, false, i));
                        }
                    }
                }
            }
        }
        assert(output@ =~= unfiltered(units, halfwords, size as int));
        let ghost written_from = *bus;
        write_block(bus, destination, &output);
        proof {
            let (chain, mid, half) = choose|chain: Seq<Bus>, mid: Bus, half: u16|
                #[trigger] block_written(chain, mid, half, &written_from, &*bus, destination, output@);
            assert(diff_traffic(reads, units, header, chain, mid, half, &*old(bus), &*bus, &*old(self), halfwords));
        }
    }

    /// HuffUnComp: a header word (type 2, symbol width in the low nibble,
    /// size above bit 8), the tree, then 32 bit words read from their top
    /// bit down. Symbols of 4 or 8 bits are packed into words from the bottom.
    #[verifier::rlimit(100)]
    #[verifier::spinoff_prover]
    fn huff_uncomp(&mut self, bus: &mut Bus)
        requires
            old(bus).wf(),
        ensures
            final(bus).wf(),
            huff_done(&*old(self), &*old(bus), &*final(self), &*final(bus)),
    {
        proof {
            reveal(huff_done);
        }
        let ghost a = *bus;
        let ghost plain = !crate::cart::is_eeprom_kind(a.cart.kind);
        let source = self.r[0] & !3u32;
        let destination = self.r[1];
        let header = bus.read32(source);
        proof {
            if plain {
                lemma_same_reads(&a, &*bus);
            }
        }
        if header & 0xf0 != 0x20 {
            return;
        }
        let symbol_bits = header & 0xf;
        if symbol_bits != 4 && symbol_bits != 8 {
            return;
        }
        let size = (header >> 8u32) as usize;
        proof {
            crate::bits::lemma_shift_bytes(0, header);
        }
        let tree_base = source.wrapping_add(4);
        proof {
            if plain {
                lemma_same_reads(&a, &*bus);
            }
        }
        let tree_size = (bus.read8(tree_base) as u32 + 1) * 2;
        let mut stream = tree_base.wrapping_add(tree_size);
        let root = tree_base.wrapping_add(1);
        let ghost s0 = stream;
        proof {
            lemma_wrap_add(source, 4);
            lemma_wrap_add(tree_base, tree_size);
            lemma_wrap_add(tree_base, 1);
            if plain {
                lemma_same_reads(&a, &*bus);
            }
        }
        let mut output: Vec<u8> = Vec::new();
        let mut partial: u32 = 0;
        let mut partial_bits: u32 = 0;
        proof {
            if plain {
                lemma_same_reads(&a, &*bus);
            }
        }
        let mut word = bus.read32(stream);
        stream = stream.wrapping_add(4);
        let mut remaining_bits: u32 = 32;
        let symbol_mask: u32 = if symbol_bits == 4 {
            0xf
        } else {
            0xff
        };
        let ghost per: nat = if symbol_bits == 4 {
            8
        } else {
            4
        };
        let ghost mut k: int = 0;
        let ghost mut symbols: Seq<u32> = Seq::empty();
        let ghost mut words: Seq<u32> = Seq::empty();
        let ghost mut count: nat = 0;
        proof {
            if plain {
                lemma_same_reads(&a, &*bus);
                assert(stream_word_address(s0, 0) == s0) by {
                    vstd::arithmetic::div_mod::lemma_small_mod(s0 as nat, 0x1_0000_0000);
                }
                lemma_next_word_address(s0, 0);
                lemma_stream_shift(word, 0);
            }
            assert(output@ =~= clip(words_bytes(words), size as int));
        }
        let mut failed = false;
        while output.len() < size && !failed
            invariant
                bus.wf(),
                output@.len() <= size,
                size <= 0xff_ffff,
                partial_bits < 32,
                partial_bits % symbol_bits == 0,
                symbol_bits == 4 || symbol_bits == 8,
                remaining_bits <= 32,
                failed ==> output@.len() < size,
                plain == !crate::cart::is_eeprom_kind(a.cart.kind),
                plain ==> bus.same_but_timing(&a),
                plain ==> k >= 0,
                plain && !failed ==> (symbols, k, false) == huff_decode(
                    &a,
                    root,
                    s0,
                    symbol_mask,
                    symbols.len(),
                ),
                plain && failed ==> huff_decode(&a, root, s0, symbol_mask, symbols.len() + 1)
                    == (symbols, k, true),
                plain ==> 4 * words.len() <= size + 3,
                plain ==> (output@.len() >= size ==> count == 0),
                plain ==> (words, partial, count) == huff_pack(symbols, symbol_bits, per),
                plain ==> partial_bits == count * symbol_bits,
                plain ==> count < per,
                plain ==> symbols.len() == words.len() * per + count,
                plain ==> output@ == clip(words_bytes(words), size as int),
                plain ==> words_bytes(words).len() == 4 * words.len(),
                plain ==> per * symbol_bits == 32,
                plain && remaining_bits > 0 ==> remaining_bits == 32 - k % 32 && word == crate::bus::peek32(
                    &a,
                    stream_word_address(s0, k / 32),
                ) << (k % 32) as u32 && stream == stream_word_address(s0, k / 32 + 1),
                plain && remaining_bits == 0 ==> k % 32 == 0 && stream == stream_word_address(
                    s0,
                    k / 32,
                ),
                symbol_mask == (if symbol_bits == 4 {
                    0xfu32
                } else {
                    0xffu32
                }),
                per == (if symbol_bits == 4 {
                    8nat
                } else {
                    4nat
                }),
            decreases size - output@.len(), (if failed {
                0int
            } else {
                1int
            }), 32 - partial_bits,
        {
            // Walk from the root to a leaf, one stream bit per node.
            let mut node = root;
            let mut walking = true;
            let mut leaf_data: u32 = 0;
            let mut found = false;
            let ghost start_k = k;
            while walking
                invariant
                    bus.wf(),
                    remaining_bits <= 32,
                    plain == !crate::cart::is_eeprom_kind(a.cart.kind),
                    plain ==> bus.same_but_timing(&a),
                    plain ==> k >= start_k,
                    plain && walking ==> huff_walk(&a, node, s0, k, symbol_mask) == huff_walk(
                        &a,
                        root,
                        s0,
                        start_k,
                        symbol_mask,
                    ),
                    plain && !walking && found ==> huff_walk(&a, root, s0, start_k, symbol_mask)
                        == (true, leaf_data, k),
                    plain && !walking && !found ==> !huff_walk(&a, root, s0, start_k, symbol_mask).0
                        && huff_walk(&a, root, s0, start_k, symbol_mask).2 == k,
                    !walking || !found,
                    plain && remaining_bits > 0 ==> remaining_bits == 32 - k % 32 && word
                        == crate::bus::peek32(&a, stream_word_address(s0, k / 32)) << (k % 32) as u32
                        && stream == stream_word_address(s0, k / 32 + 1),
                    plain && remaining_bits == 0 ==> k % 32 == 0 && stream == stream_word_address(
                        s0,
                        k / 32,
                    ),
                decreases (if walking {
                    1int
                } else {
                    0int
                }), 0xffff_ffff - node,
            {
                if remaining_bits == 0 {
                    proof {
                        if plain {
                            lemma_same_reads(&a, &*bus);
                        }
                    }
                    word = bus.read32(stream);
                    proof {
                        if plain {
                            lemma_same_reads(&a, &*bus);
                            lemma_next_word_address(s0, k / 32);
                            lemma_stream_shift(word, 0);
                        }
                    }
                    stream = stream.wrapping_add(4);
                    remaining_bits = 32;
                }
                let bit = (word >> 31u32) & 1;
                proof {
                    lemma_and_le_u32(word >> 31u32, 1);
                    if plain {
                        let w = crate::bus::peek32(&a, stream_word_address(s0, k / 32));
                        lemma_stream_shift(w, (k % 32) as u32);
                        assert(bit == stream_bit(&a, s0, k));
                    }
                }
                word = word << 1u32;
                remaining_bits = remaining_bits - 1;
                proof {
                    if plain {
                        lemma_same_reads(&a, &*bus);
                    }
                }
                let value = bus.read8(node);
                proof {
                    if plain {
                        lemma_same_reads(&a, &*bus);
                        assert(value == a.peek8(node));
                    }
                }
                let offset = (value & 0x3f) as u32;
                proof {
                    crate::bits::lemma_and_le_u8(value, 0x3f);
                }
                let ghost here = k;
                proof {
                    k = k + 1;
                }
                let base_room = 0xffff_ffffu32 - (node & !1u32);
                if base_room < offset * 2 + 3 {
                    // A child past the end of the address space: malformed data.
                    walking = false;
                } else {
                    proof {
                        crate::bits::lemma_shift_bytes(0, node);
                    }
                    let child = (node & !1u32) + offset * 2 + 2 + bit;
                    let leaf_mask: u8 = if bit != 0 {
                        0x40
                    } else {
                        0x80
                    };
                    if value & leaf_mask != 0 {
                        proof {
                            if plain {
                                lemma_same_reads(&a, &*bus);
                            }
                        }
                        leaf_data = (bus.read8(child) as u32) & symbol_mask;
                        proof {
                            if plain {
                                lemma_same_reads(&a, &*bus);
                            }
                        }
                        found = true;
                        walking = false;
                    } else {
                        node = child;
                    }
                }
                proof {
                    if plain {
                        let w = crate::bus::peek32(&a, stream_word_address(s0, here / 32));
                        let s = (here % 32) as u32;
                        lemma_stream_shift(w, s);
                        if remaining_bits == 0 {
                            lemma_next_word_address(s0, here / 32);
                        }
                    }
                }
            }
            if !found {
                proof {
                    if plain {
                        lemma_decode_step(&a, root, s0, symbol_mask, symbols.len());
                    }
                }
                failed = true;
            } else {
                proof {
                    lemma_width_step(partial_bits, symbol_bits);
                    if plain {
                        lemma_decode_step(&a, root, s0, symbol_mask, symbols.len());
                        lemma_pack_step(symbols, leaf_data, symbol_bits, per);
                        lemma_count_step(count, per, symbol_bits);
                        symbols = symbols.push(leaf_data);
                    }
                }
                partial = partial | (leaf_data << partial_bits);
                partial_bits = partial_bits + symbol_bits;
                proof {
                    if plain {
                        if partial_bits == 32 {
                            lemma_words_bytes_push(words, partial);
                            words = words.push(partial);
                            count = 0;
                        } else {
                            count = count + 1;
                        }
                    }
                }
                if partial_bits == 32 {
                    push_word(&mut output, partial, size);
                    partial = 0;
                    partial_bits = 0;
                }
            }
        }
        if partial_bits > 0 && output.len() < size {
            push_word(&mut output, partial, size);
        }
        proof {
            if plain {
                let n: nat = ((size as int + 3) / 4 * per) as nat;
                if failed {
                    assert(symbols.len() + 1 <= n) by (nonlinear_arith)
                        requires
                            symbols.len() == words.len() * per + count,
                            count < per,
                            4 * words.len() < size,
                            n == (size as int + 3) / 4 * per,
                            per > 0,
                    ;
                    lemma_decode_stays_failed(&a, root, s0, symbol_mask, (symbols.len() + 1) as nat, n);
                } else {
                    assert(symbols.len() == n) by (nonlinear_arith)
                        requires
                            symbols.len() == words.len() * per + count,
                            count == 0,
                            4 * words.len() >= size,
                            4 * words.len() <= size + 3,
                            n == (size as int + 3) / 4 * per,
                    ;
                }
                assert(output@ =~= huff_output(&a, old(self).r[0]));
            }
        }
        let ghost before = *bus;
        write_block(bus, destination, &output);
        proof {
            if plain {
                let (chain, mid, half) = choose|chain: Seq<Bus>, mid: Bus, half: u16|
                    #[trigger] block_written(chain, mid, half, &before, &*bus, destination, output@);
                assert(block_written(
                    chain,
                    mid,
                    half,
                    &before,
                    &*bus,
                    old(self).r[1],
                    huff_output(&*old(bus), old(self).r[0]),
                ) && before.same_but_timing(&*old(bus)));
            }
        }
    }
}

// ---------------------------------------------------------- run length

/// `address` moved on by `n` bytes, modulo 2^32.
pub open spec fn advanced_by(address: u32, n: int) -> u32 {
    ((address as int + n) % 0x1_0000_0000) as u32
}

/// The run-length stream from `source` expanded onto `out` until `size`
/// bytes are out: a control byte with bit 7 set repeats the byte after it
/// `(c & 0x7f) + 3` times, any other is followed by `(c & 0x7f) + 1`
/// literal bytes; a run is cut where the size is reached. Also where the
/// stream was left.
pub open spec fn rl_expand(a: &Bus, source: u32, out: Seq<u8>, size: int) -> (Seq<u8>, u32)
    decreases size - out.len(),
{
    if out.len() >= size {
        (out, source)
    } else {
        let control = a.peek8(source);
        let after = advanced_by(source, 1);
        let room = size - out.len();
        if control & 0x80 != 0 {
            let count = (control & 0x7f) as int + 3;
            let n = if count < room { count } else { room };
            let value = a.peek8(after);
            rl_expand(a, advanced_by(after, 1), out + Seq::new(n as nat, |i: int| value), size)
        } else {
            let count = (control & 0x7f) as int + 1;
            let n = if count < room { count } else { room };
            rl_expand(
                a,
                advanced_by(after, n),
                out + Seq::new(n as nat, |i: int| a.peek8(advanced_by(after, i))),
                size,
            )
        }
    }
}

/// Moving on one byte from `address + i` reaches `address + i + 1`.
proof fn lemma_advance_step(address: u32, i: int)
    ensures
        advanced_by(address, i).wrapping_add(1) == advanced_by(address, i + 1),
{
    lemma_wrap_add(advanced_by(address, i), 1);
    vstd::arithmetic::div_mod::lemma_add_mod_noop(address as int + i, 1, 0x1_0000_0000);
    vstd::arithmetic::div_mod::lemma_small_mod(1, 0x1_0000_0000);
}

/// What RLUnComp writes and leaves in r0 for the data at `r0`.
pub open spec fn rl_result(a: &Bus, r0: u32) -> (Seq<u8>, u32) {
    let source = r0 & !3u32;
    let header = crate::bus::peek32(a, source);
    rl_expand(a, advanced_by(source, 4), Seq::empty(), (header >> 8u32) as int)
}

/// A repeat run puts its byte out `(c & 0x7f) + 3` times, and a literal run
/// copies the `(c & 0x7f) + 1` bytes after its control byte, in order, as
/// far as the size allows; either way the rest of the stream follows on.
pub proof fn law_run_length_runs(a: &Bus, source: u32, out: Seq<u8>, size: int)
    requires
        out.len() < size,
    ensures
        ({
            let control = a.peek8(source);
            let after = advanced_by(source, 1);
            let (expanded, next) = rl_expand(a, source, out, size);
            let room = size - out.len();
            &&& expanded.subrange(0, out.len() as int) == out
            &&& control & 0x80 != 0 ==> forall|i: int|
                out.len() <= i < out.len() + (control & 0x7f) + 3 && i < size ==> #[trigger] expanded[i]
                    == a.peek8(after)
            &&& control & 0x80 == 0 ==> forall|i: int|
                out.len() <= i < out.len() + (control & 0x7f) + 1 && i < size ==> #[trigger] expanded[i]
                    == a.peek8(advanced_by(after, i - out.len()))
        }),
{
    let control = a.peek8(source);
    let after = advanced_by(source, 1);
    let room = size - out.len();
    if control & 0x80 != 0 {
        let count = (control & 0x7f) as int + 3;
        let n = if count < room { count } else { room };
        let value = a.peek8(after);
        let more = out + Seq::new(n as nat, |i: int| value);
        lemma_expand_keeps_prefix(a, advanced_by(after, 1), more, size);
        assert forall|i: int| out.len() <= i < out.len() + (control & 0x7f) + 3 && i < size implies
            #[trigger] rl_expand(a, source, out, size).0[i] == a.peek8(after) by {
            assert(rl_expand(a, source, out, size).0.subrange(0, more.len() as int) == more);
            assert(rl_expand(a, source, out, size).0[i] == more[i]);
        }
        assert(rl_expand(a, source, out, size).0.subrange(0, out.len() as int) =~= out) by {
            assert(rl_expand(a, source, out, size).0.subrange(0, more.len() as int) == more);
            assert forall|j: int| 0 <= j < out.len() implies rl_expand(a, source, out, size).0[j] == out[j] by {
                assert(rl_expand(a, source, out, size).0[j] == more[j]);
            }
        }
    } else {
        let count = (control & 0x7f) as int + 1;
        let n = if count < room { count } else { room };
        let more = out + Seq::new(n as nat, |i: int| a.peek8(advanced_by(after, i)));
        lemma_expand_keeps_prefix(a, advanced_by(after, n), more, size);
        assert forall|i: int| out.len() <= i < out.len() + (control & 0x7f) + 1 && i < size implies
            #[trigger] rl_expand(a, source, out, size).0[i] == a.peek8(advanced_by(after, i - out.len())) by {
            assert(rl_expand(a, source, out, size).0.subrange(0, more.len() as int) == more);
            assert(rl_expand(a, source, out, size).0[i] == more[i]);
        }
        assert(rl_expand(a, source, out, size).0.subrange(0, out.len() as int) =~= out) by {
            assert(rl_expand(a, source, out, size).0.subrange(0, more.len() as int) == more);
            assert forall|j: int| 0 <= j < out.len() implies rl_expand(a, source, out, size).0[j] == out[j] by {
                assert(rl_expand(a, source, out, size).0[j] == more[j]);
            }
        }
    }
}

/// Expanding only appends: what is out already stays at the front.
proof fn lemma_expand_keeps_prefix(a: &Bus, source: u32, out: Seq<u8>, size: int)
    ensures
        rl_expand(a, source, out, size).0.len() >= out.len(),
        rl_expand(a, source, out, size).0.subrange(0, out.len() as int) == out,
    decreases size - out.len(),
{
    if out.len() < size {
        let control = a.peek8(source);
        let after = advanced_by(source, 1);
        let room = size - out.len();
        if control & 0x80 != 0 {
            let count = (control & 0x7f) as int + 3;
            let n = if count < room { count } else { room };
            let value = a.peek8(after);
            let more = out + Seq::new(n as nat, |i: int| value);
            lemma_expand_keeps_prefix(a, advanced_by(after, 1), more, size);
            let r = rl_expand(a, source, out, size).0;
            assert forall|j: int| 0 <= j < out.len() implies r.subrange(0, out.len() as int)[j] == out[j] by {
                assert(r.subrange(0, more.len() as int)[j] == more[j]);
            }
            assert(r.subrange(0, out.len() as int) =~= out);
        } else {
            let count = (control & 0x7f) as int + 1;
            let n = if count < room { count } else { room };
            let more = out + Seq::new(n as nat, |i: int| a.peek8(advanced_by(after, i)));
            lemma_expand_keeps_prefix(a, advanced_by(after, n), more, size);
            let r = rl_expand(a, source, out, size).0;
            assert forall|j: int| 0 <= j < out.len() implies r.subrange(0, out.len() as int)[j] == out[j] by {
                assert(r.subrange(0, more.len() as int)[j] == more[j]);
            }
            assert(r.subrange(0, out.len() as int) =~= out);
        }
    } else {
        assert(out.subrange(0, out.len() as int) =~= out);
    }
}

// ---------------------------------------------------------------- huffman

/// The address of word `j` of a bit stream that starts at `stream`.
pub open spec fn stream_word_address(stream: u32, j: int) -> u32 {
    ((stream as int + 4 * j) % 0x1_0000_0000) as u32
}

/// Bit `k` of a Huffman bit stream: 32 bit words, each read from its top
/// bit down.
pub open spec fn stream_bit(a: &Bus, stream: u32, k: int) -> u32 {
    (crate::bus::peek32(a, stream_word_address(stream, k / 32)) >> ((31 - k % 32) as u32)) & 1
}

/// The walk from tree node `node` to a leaf, one stream bit from bit `k` on
/// per node: whether a leaf was reached, its symbol, and the next bit. A
/// node's byte holds the offset of its child pair in the low six bits, and
/// flags the first child (taken on a 0 bit) as a leaf in bit 7 and the
/// second (taken on a 1 bit) in bit 6.
pub open spec fn huff_walk(a: &Bus, node: u32, stream: u32, k: int, mask: u32) -> (bool, u32, int)
    decreases 0x1_0000_0000 - node,
{
    let bit = stream_bit(a, stream, k);
    let value = a.peek8(node);
    let offset = (value & 0x3f) as u32;
    if 0xffff_ffff - (node & !1u32) < offset * 2 + 3 {
        (false, 0, k + 1)
    } else {
        let child = ((node & !1u32) + offset * 2 + 2 + bit) as u32;
        let leaf_mask: u8 = if bit != 0 {
            0x40
        } else {
            0x80
        };
        if value & leaf_mask != 0 {
            (true, (a.peek8(child) as u32) & mask, k + 1)
        } else {
            proof {
                crate::bits::lemma_shift_bytes(0, node);
                lemma_and_le_u32(
                    crate::bus::peek32(a, stream_word_address(stream, k / 32)) >> ((31 - k % 32) as u32),
                    1,
                );
            }
            huff_walk(a, child, stream, k + 1, mask)
        }
    }
}

/// The first `n` symbols decoded from the tree at `root`: the symbols, the
/// next stream bit, and whether a walk failed on the way (when fewer came
/// out).
pub open spec fn huff_decode(a: &Bus, root: u32, stream: u32, mask: u32, n: nat) -> (Seq<u32>, int, bool)
    decreases n,
{
    if n == 0 {
        (Seq::empty(), 0, false)
    } else {
        let (symbols, k, failed) = huff_decode(a, root, stream, mask, (n - 1) as nat);
        if failed {
            (symbols, k, true)
        } else {
            let (found, symbol, next) = huff_walk(a, root, stream, k, mask);
            if found {
                (symbols.push(symbol), next, false)
            } else {
                (symbols, next, true)
            }
        }
    }
}

/// Symbols packed into words from the bottom, `per` to a word of `width`
/// bits each: the full words, the partial word and how many it holds.
pub open spec fn huff_pack(symbols: Seq<u32>, width: u32, per: nat) -> (Seq<u32>, u32, nat)
    decreases symbols.len(),
{
    if symbols.len() == 0 {
        (Seq::empty(), 0, 0)
    } else {
        let (words, partial, count) = huff_pack(symbols.drop_last(), width, per);
        let packed = partial | (symbols.last() << ((count * width) as u32));
        if count + 1 == per {
            (words.push(packed), 0, 0)
        } else {
            (words, packed, count + 1)
        }
    }
}

/// The four bytes of a word, lowest first.
pub open spec fn le_bytes(word: u32) -> Seq<u8> {
    seq![(word >> 0u32) as u8, (word >> 8u32) as u8, (word >> 16u32) as u8, (word >> 24u32) as u8]
}

/// Words laid out as bytes, each lowest byte first.
pub open spec fn words_bytes(words: Seq<u32>) -> Seq<u8>
    decreases words.len(),
{
    if words.len() == 0 {
        Seq::empty()
    } else {
        words_bytes(words.drop_last()) + le_bytes(words.last())
    }
}

/// The first `n` bytes of `bytes`, or all of them when there are fewer.
pub open spec fn clip(bytes: Seq<u8>, n: int) -> Seq<u8> {
    if bytes.len() <= n {
        bytes
    } else {
        bytes.take(n)
    }
}

/// Whether the header at `r0` (rounded down to a word) asks for Huffman
/// data of 4 or 8 bit symbols.
pub open spec fn huff_header_ok(a: &Bus, r0: u32) -> bool {
    let header = crate::bus::peek32(a, r0 & !3u32);
    &&& header & 0xf0 == 0x20
    &&& (header & 0xf == 4 || header & 0xf == 8)
}

/// What HuffUnComp writes for the data at `r0`: the symbols decoded, as
/// many words of them as the size in the header needs, packed from the
/// bottom and cut to that size; fewer if a walk fails.
pub open spec fn huff_output(a: &Bus, r0: u32) -> Seq<u8> {
    let source = r0 & !3u32;
    let header = crate::bus::peek32(a, source);
    let width = header & 0xf;
    let size = (header >> 8u32) as int;
    let tree_base = ((source as int + 4) % 0x1_0000_0000) as u32;
    let tree_size = (a.peek8(tree_base) as int + 1) * 2;
    let stream = ((tree_base as int + tree_size) % 0x1_0000_0000) as u32;
    let root = ((tree_base as int + 1) % 0x1_0000_0000) as u32;
    let mask: u32 = if width == 4 {
        0xf
    } else {
        0xff
    };
    let per: nat = if width == 4 {
        8
    } else {
        4
    };
    let (symbols, next, failed) = huff_decode(a, root, stream, mask, ((size + 3) / 4 * per) as nat);
    let (words, partial, count) = huff_pack(symbols, width, per);
    clip(
        words_bytes(words) + if count > 0 {
            le_bytes(partial)
        } else {
            Seq::empty()
        },
        size,
    )
}

/// A wrapping sum of addresses is the sum modulo 2^32.
proof fn lemma_wrap_add(x: u32, y: u32)
    ensures
        x.wrapping_add(y) == ((x as int + y as int) % 0x1_0000_0000) as u32,
{
    if x as int + y as int <= 0xffff_ffff {
        vstd::arithmetic::div_mod::lemma_small_mod((x + y) as nat, 0x1_0000_0000);
    } else {
        vstd::arithmetic::div_mod::lemma_mod_sub_multiples_vanish(x + y, 0x1_0000_0000);
        vstd::arithmetic::div_mod::lemma_small_mod((x + y - 0x1_0000_0000) as nat, 0x1_0000_0000);
    }
}

/// The word after word `j` of a stream is word `j + 1`.
proof fn lemma_next_word_address(stream: u32, j: int)
    ensures
        stream_word_address(stream, j).wrapping_add(4) == stream_word_address(stream, j + 1),
{
    let x = stream as int + 4 * j;
    lemma_wrap_add(stream_word_address(stream, j), 4);
    vstd::arithmetic::div_mod::lemma_add_mod_noop(x, 4, 0x1_0000_0000);
    vstd::arithmetic::div_mod::lemma_small_mod(4, 0x1_0000_0000);
}

/// The top bit of a word shifted up by `s` is its bit `31 - s`, and
/// shifting once more is shifting by `s + 1`.
proof fn lemma_stream_shift(w: u32, s: u32)
    by (bit_vector)
    requires
        s < 32,
    ensures
        ((w << s) >> 31u32) & 1 == (w >> (31 - s) as u32) & 1,
        s < 31 ==> (w << s) << 1u32 == w << (s + 1) as u32,
        w << 0u32 == w,
{
}

/// Buses that differ only in timing read the same everywhere.
proof fn lemma_same_reads(a: &Bus, b: &Bus)
    requires
        b.same_but_timing(a),
    ensures
        forall|x: u32| #[trigger] b.peek8(x) == a.peek8(x),
        forall|x: u32| #[trigger] crate::bus::peek32(b, x) == crate::bus::peek32(a, x),
        forall|x: u32| #[trigger] b.cart.eeprom_at(x) == a.cart.eeprom_at(x),
{
    assert forall|x: u32| #[trigger] b.peek8(x) == a.peek8(x) by {
        assert(b.io_value(((x & 0xffff) as usize) & !1usize) == a.io_value(((x & 0xffff) as usize) & !1usize));
    }
    assert forall|x: u32| #[trigger] crate::bus::peek32(b, x) == crate::bus::peek32(a, x) by {
        let address = x & !3u32;
        let offset = (address & 0xfffc) as usize;
        assert(b.io_value(offset) == a.io_value(offset));
        assert(b.io_value((offset + 2) as usize) == a.io_value((offset + 2) as usize));
        assert(crate::bus::peek16(b, address) == crate::bus::peek16(a, address));
        assert(crate::bus::peek16(b, address.wrapping_add(2)) == crate::bus::peek16(
            a,
            address.wrapping_add(2),
        ));
    }
}

/// Decoding one symbol more runs one more walk from the root.
proof fn lemma_decode_step(a: &Bus, root: u32, stream: u32, mask: u32, n: nat)
    requires
        !huff_decode(a, root, stream, mask, n).2,
    ensures
        ({
            let (symbols, k, failed) = huff_decode(a, root, stream, mask, n);
            let (found, symbol, next) = huff_walk(a, root, stream, k, mask);
            huff_decode(a, root, stream, mask, n + 1) == if found {
                (symbols.push(symbol), next, false)
            } else {
                (symbols, next, true)
            }
        }),
{
}

/// Packing one symbol more adds it to the partial word, which is complete
/// once it holds `per` of them.
proof fn lemma_pack_step(symbols: Seq<u32>, symbol: u32, width: u32, per: nat)
    ensures
        ({
            let (words, partial, count) = huff_pack(symbols, width, per);
            let packed = partial | (symbol << ((count * width) as u32));
            huff_pack(symbols.push(symbol), width, per) == if count + 1 == per {
                (words.push(packed), 0u32, 0nat)
            } else {
                (words, packed, count + 1)
            }
        }),
{
    assert(symbols.push(symbol).drop_last() =~= symbols);
}

/// One more word is four more bytes, lowest first.
proof fn lemma_words_bytes_push(words: Seq<u32>, word: u32)
    ensures
        words_bytes(words.push(word)) == words_bytes(words) + le_bytes(word),
        words_bytes(words.push(word)).len() == words_bytes(words).len() + 4,
{
    assert(words.push(word).drop_last() =~= words);
}

/// With `per` symbols of `width` bits to a 32 bit word, the partial word is
/// full exactly when it holds `per` symbols.
proof fn lemma_count_step(count: nat, per: nat, width: u32)
    requires
        width == 4 && per == 8 || width == 8 && per == 4,
        count < per,
    ensures
        count * width + width == (count + 1) * width,
        (count * width + width == 32) == (count + 1 == per),
        count * width + width <= 32,
{
    if width == 4 {
        assert(count * 4 + 4 == (count + 1) * 4);
    } else {
        assert(count * 8 + 8 == (count + 1) * 8);
    }
}

/// Once a walk has failed, decoding more symbols changes nothing.
proof fn lemma_decode_stays_failed(a: &Bus, root: u32, stream: u32, mask: u32, m: nat, n: nat)
    requires
        m <= n,
        huff_decode(a, root, stream, mask, m).2,
    ensures
        huff_decode(a, root, stream, mask, n) == huff_decode(a, root, stream, mask, m),
    decreases n - m,
{
    if m < n {
        lemma_decode_stays_failed(a, root, stream, mask, m, (n - 1) as nat);
    }
}

/// In a Huffman tree whose root holds two leaves (child offset 0, both leaf
/// flags set), every stream bit decodes to one symbol: a 0 bit to the first
/// leaf, the byte just after the root's own pair, and a 1 bit to the
/// second, the byte after that.
pub proof fn law_huffman_zero_bit_takes_the_first_child(
    a: &Bus,
    root: u32,
    stream: u32,
    mask: u32,
    n: nat,
)
    requires
        a.peek8(root) & 0xc0 == 0xc0,
        a.peek8(root) & 0x3f == 0,
        root < 0xffff_fff0,
    ensures
        !huff_decode(a, root, stream, mask, n).2,
        huff_decode(a, root, stream, mask, n).1 == n,
        huff_decode(a, root, stream, mask, n).0.len() == n,
        forall|i: int|
            0 <= i < n ==> #[trigger] huff_decode(a, root, stream, mask, n).0[i] == (a.peek8(
                (if stream_bit(a, stream, i) == 0 {
                    (root & !1u32) + 2
                } else {
                    (root & !1u32) + 3
                }) as u32,
            ) as u32) & mask,
    decreases n,
{
    if n > 0 {
        law_huffman_zero_bit_takes_the_first_child(a, root, stream, mask, (n - 1) as nat);
        let k = (n - 1) as int;
        let bit = stream_bit(a, stream, k);
        let value = a.peek8(root);
        crate::bits::lemma_shift_bytes(0, root);
        lemma_and_le_u32(
            crate::bus::peek32(a, stream_word_address(stream, k / 32)) >> ((31 - k % 32) as u32),
            1,
        );
        assert(value & 0x40 != 0 && value & 0x80 != 0) by (bit_vector)
            requires
                value & 0xc0 == 0xc0,
        ;
        let walked = huff_walk(a, root, stream, k, mask);
        assert(walked.0 && walked.2 == k + 1 && walked.1 == (a.peek8(
            (if bit == 0 {
                (root & !1u32) + 2
            } else {
                (root & !1u32) + 3
            }) as u32,
        ) as u32) & mask);
        let before = huff_decode(a, root, stream, mask, (n - 1) as nat);
        assert forall|i: int| 0 <= i < n implies #[trigger] huff_decode(a, root, stream, mask, n).0[i]
            == (a.peek8(
            (if stream_bit(a, stream, i) == 0 {
                (root & !1u32) + 2
            } else {
                (root & !1u32) + 3
            }) as u32,
        ) as u32) & mask by {
            if i < n - 1 {
                assert(huff_decode(a, root, stream, mask, n).0[i] == before.0[i]);
            }
        }
    }
}

/// Appends a word's bytes, low first, stopping at `limit` bytes in all.
fn push_word(output: &mut Vec<u8>, word: u32, limit: usize)
    requires
        old(output)@.len() < limit,
    ensures
        final(output)@.len() > old(output)@.len(),
        final(output)@.len() <= limit,
        final(output)@.len() <= old(output)@.len() + 4,
        final(output)@.subrange(0, old(output)@.len() as int) == old(output)@,
        final(output)@ == clip(old(output)@ + le_bytes(word), limit as int),
{
    let mut index: u32 = 0;
    while index < 4 && output.len() < limit
        invariant
            index <= 4,
            output@.len() <= limit,
            output@.len() == old(output)@.len() + index,
            output@ == old(output)@ + le_bytes(word).take(index as int),
        decreases 4 - index,
    {
        output.push((word >> (index * 8)) as u8);
        proof {
            if index == 0 {
                assert(index * 8 == 0u32);
            } else if index == 1 {
                assert(index * 8 == 8u32);
            } else if index == 2 {
                assert(index * 8 == 16u32);
            } else {
                assert(index * 8 == 24u32);
            }
            assert(le_bytes(word)[index as int] == (word >> (index * 8)) as u8);
        }
        index = index + 1;
        assert(output@ =~= old(output)@ + le_bytes(word).take(index as int));
    }
    assert(output@.subrange(0, old(output)@.len() as int) =~= old(output)@);
    assert(output@ =~= clip(old(output)@ + le_bytes(word), limit as int));
}

/// What `write_block` leaves: at an odd destination each byte written in
/// turn; otherwise each pair of bytes written as a little-endian halfword,
/// and a trailing byte merged into the low half of the halfword read at its
/// place. `chain` holds the bus before each write, `mid` the bus after that
/// last read, which read `half`.
pub open spec fn block_written(
    chain: Seq<Bus>,
    mid: Bus,
    half: u16,
    bus: &Bus,
    after: &Bus,
    destination: u32,
    data: Seq<u8>,
) -> bool {
    if destination & 1 != 0 {
        &&& chain.len() == data.len() + 1
        &&& chain[0] == *bus
        &&& chain[data.len() as int] == *after
        &&& forall|i: int|
            0 <= i < data.len() ==> #[trigger] write8_done(
                &chain[i],
                unit_address(destination, 1, i),
                data[i],
                &chain[i + 1],
            )
    } else {
        let pairs = data.len() / 2;
        &&& chain.len() == pairs + 1
        &&& chain[0] == *bus
        &&& forall|k: int|
            0 <= k < pairs ==> #[trigger] write16_done(
                &chain[k],
                unit_address(destination, 2, k),
                (data[2 * k] as u16) | ((data[2 * k + 1] as u16) << 8u16),
                &chain[k + 1],
            )
        &&& data.len() % 2 == 0 ==> chain[pairs as int] == *after
        &&& data.len() % 2 != 0 ==> read16_done(
            &chain[pairs as int],
            unit_address(destination, 2, pairs as int),
            half,
            &mid,
        ) && write16_done(
            &mid,
            unit_address(destination, 2, pairs as int),
            (half & 0xff00) | data[data.len() - 1] as u16,
            after,
        )
    }
}

/// Writes decompressed data out in halfwords so VRAM accepts it; an odd
/// destination gets bytes, and a trailing byte keeps the high half of the
/// halfword it lands in.
#[verifier::spinoff_prover]
#[verifier::rlimit(60)]
fn write_block(bus: &mut Bus, destination: u32, data: &Vec<u8>)
    requires
        old(bus).wf(),
        data@.len() <= 0x100_0004,
    ensures
        final(bus).wf(),
        exists|chain: Seq<Bus>, mid: Bus, half: u16|
            #[trigger] block_written(chain, mid, half, &*old(bus), &*final(bus), destination, data@),
{
    let ghost mut chain: Seq<Bus> = seq![*bus];
    proof {
        vstd::arithmetic::div_mod::lemma_small_mod(destination as nat, 0x1_0000_0000nat);
    }
    if destination & 1 != 0 {
        let mut index: usize = 0;
        while index < data.len()
            invariant
                bus.wf(),
                destination & 1 != 0,
                index <= data@.len(),
                data@.len() <= 0x100_0004,
                chain.len() == index + 1,
                chain[0] == *old(bus),
                chain.last() == *bus,
                forall|i: int|
                    0 <= i < index ==> #[trigger] write8_done(
                        &chain[i],
                        unit_address(destination, 1, i),
                        data@[i],
                        &chain[i + 1],
                    ),
            decreases data@.len() - index,
        {
            let ghost before = chain;
            proof {
                lemma_unit_step(destination, 1, 0);
                assert(unit_address(destination, 1, index as int) == destination.wrapping_add(
                    index as u32,
                )) by {
                    vstd::arithmetic::div_mod::lemma_small_mod(index as nat, 0x1_0000_0000nat);
                }
            }
            bus.write8(destination.wrapping_add(index as u32), data[index]);
            proof {
                chain = chain.push(*bus);
                assert forall|i: int| 0 <= i < index + 1 implies #[trigger] write8_done(
                    &chain[i],
                    unit_address(destination, 1, i),
                    data@[i],
                    &chain[i + 1],
                ) by {
                    if i < index {
                        assert(chain[i] == before[i]);
                        assert(chain[i + 1] == before[i + 1]);
                    }
                }
            }
            index = index + 1;
        }
        assert(block_written(chain, *bus, 0, &*old(bus), &*bus, destination, data@));
        return;
    }
    let mut address = destination;
    let mut index: usize = 0;
    while index + 1 < data.len()
        invariant
            bus.wf(),
            destination & 1 == 0,
            index <= data@.len(),
            data@.len() <= 0x100_0004,
            index % 2 == 0,
            chain.len() == index / 2 + 1,
            chain[0] == *old(bus),
            chain.last() == *bus,
            address == unit_address(destination, 2, (index / 2) as int),
            forall|k: int|
                0 <= k < index / 2 ==> #[trigger] write16_done(
                    &chain[k],
                    unit_address(destination, 2, k),
                    (data@[2 * k] as u16) | ((data@[2 * k + 1] as u16) << 8u16),
                    &chain[k + 1],
                ),
        decreases data@.len() - index,
    {
        let ghost before = chain;
        let value = (data[index] as u16) | ((data[index + 1] as u16) << 8u16);
        bus.write16(address, value);
        proof {
            chain = chain.push(*bus);
            assert(2 * (index / 2) == index);
            assert forall|k: int| 0 <= k < (index + 2) / 2 implies #[trigger] write16_done(
                &chain[k],
                unit_address(destination, 2, k),
                (data@[2 * k] as u16) | ((data@[2 * k + 1] as u16) << 8u16),
                &chain[k + 1],
            ) by {
                if k < index / 2 {
                    assert(chain[k] == before[k]);
                    assert(chain[k + 1] == before[k + 1]);
                }
            }
            lemma_unit_step(destination, 2, (index / 2) as int);
        }
        address = address.wrapping_add(2);
        index = index + 2;
    }
    assert(index / 2 == data@.len() / 2);
    if index < data.len() {
        let ghost before = *bus;
        let loaded = bus.read16(address);
        let ghost mid = *bus;
        let existing = loaded & 0xff00;
        bus.write16(address, existing | data[index] as u16);
        assert(block_written(chain, mid, loaded, &*old(bus), &*bus, destination, data@));
    } else {
        assert(block_written(chain, *bus, 0, &*old(bus), &*bus, destination, data@));
    }
}


proof fn lemma_word_bytes(word: u32, s: u32)
    by (bit_vector)
    ensures
        word_byte(word, 0) == word as u8,
        s < 4 ==> word_byte(0, s) == 0,
{
}

proof fn lemma_signed_magnitude(value: i32)
    by (bit_vector)
    ensures
        value < 0 ==> 0u32.wrapping_sub(value as u32) == -(value as int),
        value >= 0 ==> value as u32 == value as int,
{
}

/// Shifting a fraction of a turn in 2^-48 units down to 2^-16 units.
proof fn lemma_turn_units(a: i64)
    by (bit_vector)
    ensures
        0 <= a ==> 0 <= a >> 32u32 <= a,
        a == 0 ==> a >> 32u32 == 0,
        a == 0x8000_0000 ==> a >> 32u32 == 0,
        a == 0x8000_0000_0000 + 0x8000_0000 ==> a >> 32u32 == 0x8000,
        a == 0x4000_0000_0000 + 0x8000_0000 ==> a >> 32u32 == 0x4000,
{
}

/// A signed angle as the low halfword of a register.
proof fn lemma_units_word(u: i64)
    by (bit_vector)
    ensures
        u == 0 ==> (u as u32) & 0xffff == 0,
        u == 0x8000 ==> (u as u32) & 0xffff == 0x8000,
        u == 0x4000 ==> (u as u32) & 0xffff == 0x4000,
        u == -0x4000 ==> (u as u32) & 0xffff == 0xc000,
{
}

proof fn lemma_io_address(offset: u32)
    by (bit_vector)
    ensures
        offset < 0x400 ==> crate::bus::region_of((0x0400_0000 + offset) as u32) == 4,
        0u16 & 0x8000 == 0,
{
}

proof fn lemma_lz77_token(first: usize, second: usize)
    by (bit_vector)
    requires
        first <= 0xff,
        second <= 0xff,
    ensures
        first >> 4usize <= 0xf,
        ((first & 0xf) << 8usize) | second <= 0xfff,
{
}

} // verus!
