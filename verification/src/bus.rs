//! System bus: memory map, IO registers, DMA and the interrupt controller.

use crate::apu::Apu;
use crate::bits::{
    lemma_and_le_u16, lemma_and_le_u32, lemma_and_le_usize, lemma_byte_pairs, lemma_clear_low_bit,
    lemma_control_bits, lemma_widened_mask,
};
use crate::cart::{
    eeprom_written, is_eeprom_kind, rom_written, save_size, save_written, Cart, SaveKind,
};
use crate::dma::{timing_of, DmaChannel, DmaTiming};
use crate::ppu::{Ppu, EVENT_FRAME, EVENT_HBLANK, EVENT_HBLANK_ANY, EVENT_VBLANK};
use crate::state::{block_bytes, bool_byte, le16, le32, Reader, Snapshot, StateError, Writer};
use crate::timer::{Timer, Timers};
use vstd::prelude::*;

verus! {

pub const IRQ_VBLANK: u16 = 1;

pub const IRQ_HBLANK: u16 = 2;

pub const IRQ_VCOUNT: u16 = 4;

pub const IRQ_SERIAL: u16 = 0x80;

pub const IRQ_DMA0: u16 = 0x100;

pub const IRQ_KEYPAD: u16 = 0x1000;

pub const EWRAM_MASK: usize = 0x3_ffff;

pub const IWRAM_MASK: usize = 0x7fff;

/// The value the serial data registers read while no partner is connected.
pub const SERIAL_IDLE: u16 = 0xffff;

pub struct Bus {
    pub bios: Vec<u8>,
    pub ewram: Vec<u8>,
    pub iwram: Vec<u8>,
    pub ppu: Ppu,
    pub apu: Apu,
    pub cart: Cart,
    pub timers: Timers,
    pub dma: [DmaChannel; 4],
    pub keyinput: u16,
    pub keycnt: u16,
    pub interrupt_enable: u16,
    pub interrupt_flags: u16,
    pub master_enable: bool,
    pub waitcnt: u16,
    pub postflg: u8,
    pub serial: [u16; 16],
    pub use_hle_bios: bool,
    /// Set by a write to HALTCNT; the processor halts before its next step.
    pub halt_requested: bool,
    /// Cycles the current instruction spent waiting on memory.
    pub access_cycles: u32,
    pub frame_ready: bool,
    pub open_bus: u32,
    pub bios_latch: u32,
    /// True while the program counter sits inside the BIOS.
    pub executing_bios: bool,
    /// Cycles of a non-sequential access to each region, halfword and word.
    pub wait16: [u32; 16],
    pub wait32: [u32; 16],
    /// Cycles of an access that follows on from the previous one.
    pub seq16: [u32; 16],
    pub seq32: [u32; 16],
    /// The address an access has to start at to count as sequential.
    pub next_sequential: u32,
}

// ------------------------------------------------------------ address maps

/// Memory region of an address: its bits 24-27.
/// A BIOS image as the bus holds it: padded with zeros to 16K.
pub open spec fn padded_bios(image: Seq<u8>) -> Seq<u8> {
    if image.len() >= 0x4000 {
        image
    } else {
        image + Seq::new((0x4000 - image.len()) as nat, |i: int| 0u8)
    }
}

pub open spec fn region_of(address: u32) -> u32 {
    (address >> 24u32) & 0xf
}

pub open spec fn ewram_index(address: u32) -> int {
    (address & 0x3_ffff) as int
}

pub open spec fn iwram_index(address: u32) -> int {
    (address & 0x7fff) as int
}

pub open spec fn palette_index(address: u32) -> int {
    (address & 0x3ff) as int
}

/// VRAM mirrors in 128K steps, and the upper 32K repeats the 64-96K block.
pub open spec fn vram_index(address: u32) -> int {
    let offset = (address & 0x1_ffff) as int;
    if offset >= 0x1_8000 {
        offset - 0x8000
    } else {
        offset
    }
}

/// Byte `index` (0 lowest) of a word.
pub open spec fn word_byte(value: u32, index: u32) -> u8 {
    (value >> (index * 8)) as u8
}

/// A little-endian halfword of a byte sequence.
pub open spec fn half_at(memory: Seq<u8>, index: int) -> u16 {
    (memory[index] as u16) | ((memory[index + 1] as u16) << 8u16)
}

/// A little-endian word of a byte sequence.
pub open spec fn word_at(memory: Seq<u8>, index: int) -> u32 {
    (memory[index] as u32) | ((memory[index + 1] as u32) << 8u32) | ((memory[index + 2] as u32)
        << 16u32) | ((memory[index + 3] as u32) << 24u32)
}

/// A byte sequence with a halfword stored little-endian at `index`.
pub open spec fn with_half(memory: Seq<u8>, index: int, value: u16) -> Seq<u8> {
    memory.update(index, value as u8).update(index + 1, (value >> 8u16) as u8)
}

/// The bit facts the memory map rests on: clearing the low address bits
/// keeps the region and the offsets within each memory, aligned offsets
/// stay aligned, and the halfwords of an aligned word fall in one region.
proof fn lemma_address_bits(raw: u32)
    by (bit_vector)
    ensures
        region_of(raw & !1u32) == region_of(raw),
        region_of(raw & !3u32) == region_of(raw),
        raw & !3u32 <= 0xffff_fffc,
        region_of(((raw & !3u32) + 2) as u32) == region_of(raw),
        ((raw & !3u32) + 2) as u32 & !1u32 == ((raw & !3u32) + 2) as u32,
        (raw & !3u32) & !1u32 == raw & !3u32,
        (raw & !1u32) & 0x3_ffff == (raw & !1u32) & 0x3_fffe,
        (raw & !1u32) & 0x7fff == (raw & !1u32) & 0x7ffe,
        (raw & !1u32) & 0x3ff == (raw & !1u32) & 0x3fe,
        (raw & !3u32) & 0x3_ffff == (raw & !3u32) & 0x3_fffc,
        (raw & !3u32) & 0x7fff == (raw & !3u32) & 0x7ffc,
        ((raw & !3u32) + 2) as u32 & 0x3_ffff == ((raw & !3u32) & 0x3_fffc) + 2,
        ((raw & !3u32) + 2) as u32 & 0x7fff == ((raw & !3u32) & 0x7ffc) + 2,
        (raw & !1u32) < 0x4000 ==> (raw & !1u32) + 1 < 0x4000,
        (raw & !3u32) < 0x4000 ==> (raw & !3u32) + 3 < 0x4000,
        (raw & 0xfffe) % 2 == 0,
        ((raw & !3u32) & 0xfffc) % 2 == 0,
        ((raw & !1u32) & 0x1_ffff) % 2 == 0,
        (raw & 0x3fe) == (raw & !1u32) & 0x3ff,
        ((raw & 0xffff) & !1u32) % 2 == 0,
        (raw & 0xffff) & !1u32 <= raw & 0xffff,
{
}

fn region(address: u32) -> (r: usize)
    ensures
        r == region_of(address),
        r < 16,
{
    let r = (address >> 24u32) & 0xf;
    proof {
        lemma_and_le_u32(address >> 24u32, 0xf);
    }
    r as usize
}

fn vram_offset(address: u32) -> (offset: usize)
    ensures
        offset == vram_index(address),
        offset < 0x1_8000,
{
    let offset = (address as usize) & 0x1_ffff;
    proof {
        lemma_and_le_usize(address as usize, 0x1_ffff);
        lemma_widened_mask(address);
    }
    if offset >= 0x1_8000 {
        offset - 0x8000
    } else {
        offset
    }
}

/// Units a DMA channel moves when its count register holds `count`; zero
/// means the maximum.
pub open spec fn latched_count_spec(channel: int, count: u16) -> u32 {
    let mask: u32 = if channel == 3 {
        0xffff
    } else {
        0x3fff
    };
    let value = (count as u32) & mask;
    if value == 0 {
        (mask + 1) as u32
    } else {
        value
    }
}

fn latched_count(channel: usize, count: u16) -> (units: u32)
    ensures
        units == latched_count_spec(channel as int, count),
        1 <= units <= 0x1_0000,
{
    let mask: u32 = if channel == 3 {
        0xffff
    } else {
        0x3fff
    };
    let value = count as u32 & mask;
    proof {
        lemma_and_le_u32(count as u32, mask);
    }
    if value == 0 {
        mask + 1
    } else {
        value
    }
}

/// The 28 bit affine reference point, sign-extended.
pub open spec fn sign_extend_28_spec(value: u32) -> i32 {
    (((value & 0x0fff_ffff) << 4u32) as i32) >> 4u32
}

fn sign_extend_28(value: u32) -> (r: i32)
    ensures
        r == sign_extend_28_spec(value),
{
    (((value & 0x0fff_ffff) << 4u32) as i32) >> 4u32
}

/// Nonsequential access cycles encoded in WAITCNT's two bit fields.
pub open spec fn nonsequential_wait(select: u16) -> u32 {
    if select == 0 {
        4
    } else if select == 1 {
        3
    } else if select == 2 {
        2
    } else {
        8
    }
}

fn nonsequential(select: u16) -> (cycles: u32)
    ensures
        cycles == nonsequential_wait(select),
        cycles <= 8,
{
    if select == 0 {
        4
    } else if select == 1 {
        3
    } else if select == 2 {
        2
    } else {
        8
    }
}

/// What a write of `value` to the picture register at `offset` does to the
/// picture unit: the register takes the value, masked to its bits; an
/// affine reference point also restarts the walk from it; offsets between
/// registers change nothing.
pub open spec fn ppu_register_written(p: Ppu, q: Ppu, offset: int, value: u16) -> bool {
    if offset == 0x000 {
        q == Ppu { dispcnt: value, ..p }
    } else if offset == 0x002 {
        q == Ppu { green_swap: value, ..p }
    } else if offset == 0x004 {
        q == Ppu { dispstat: (p.dispstat & 0x0007) | (value & 0xff38), ..p }
    } else if 0x008 <= offset <= 0x00e {
        q == Ppu { bgcnt: q.bgcnt, ..p } && q.bgcnt@ == p.bgcnt@.update((offset - 0x008) / 2, value)
    } else if 0x010 <= offset <= 0x01e && offset as usize & 2 == 0 {
        q == Ppu { bghofs: q.bghofs, ..p } && q.bghofs@ == p.bghofs@.update(
            (offset - 0x010) / 4,
            value & 0x1ff,
        )
    } else if 0x010 <= offset <= 0x01e {
        q == Ppu { bgvofs: q.bgvofs, ..p } && q.bgvofs@ == p.bgvofs@.update(
            (offset - 0x010) / 4,
            value & 0x1ff,
        )
    } else if offset == 0x020 || offset == 0x030 {
        q == Ppu { bgpa: q.bgpa, ..p } && q.bgpa@ == p.bgpa@.update((offset - 0x020) / 16, value as i16)
    } else if offset == 0x022 || offset == 0x032 {
        q == Ppu { bgpb: q.bgpb, ..p } && q.bgpb@ == p.bgpb@.update((offset - 0x022) / 16, value as i16)
    } else if offset == 0x024 || offset == 0x034 {
        q == Ppu { bgpc: q.bgpc, ..p } && q.bgpc@ == p.bgpc@.update((offset - 0x024) / 16, value as i16)
    } else if offset == 0x026 || offset == 0x036 {
        q == Ppu { bgpd: q.bgpd, ..p } && q.bgpd@ == p.bgpd@.update((offset - 0x026) / 16, value as i16)
    } else if offset == 0x028 || offset == 0x02a || offset == 0x038 || offset == 0x03a {
        let index = (offset - 0x028) / 16;
        let current = p.bgx[index] as u32;
        let updated = if offset as usize & 2 == 0 {
            (current & 0xffff_0000) | value as u32
        } else {
            (current & 0x0000_ffff) | ((value as u32) << 16u32)
        };
        let point = sign_extend_28_spec(updated);
        q == Ppu { bgx: q.bgx, bgx_internal: q.bgx_internal, ..p } && q.bgx@ == p.bgx@.update(
            index,
            point,
        ) && q.bgx_internal@ == p.bgx_internal@.update(index, point)
    } else if offset == 0x02c || offset == 0x02e || offset == 0x03c || offset == 0x03e {
        let index = (offset - 0x02c) / 16;
        let current = p.bgy[index] as u32;
        let updated = if offset as usize & 2 == 0 {
            (current & 0xffff_0000) | value as u32
        } else {
            (current & 0x0000_ffff) | ((value as u32) << 16u32)
        };
        let point = sign_extend_28_spec(updated);
        q == Ppu { bgy: q.bgy, bgy_internal: q.bgy_internal, ..p } && q.bgy@ == p.bgy@.update(
            index,
            point,
        ) && q.bgy_internal@ == p.bgy_internal@.update(index, point)
    } else if offset == 0x040 || offset == 0x042 {
        q == Ppu { winh: q.winh, ..p } && q.winh@ == p.winh@.update((offset - 0x040) / 2, value)
    } else if offset == 0x044 || offset == 0x046 {
        q == Ppu { winv: q.winv, ..p } && q.winv@ == p.winv@.update((offset - 0x044) / 2, value)
    } else if offset == 0x048 {
        q == Ppu { winin: value & 0x3f3f, ..p }
    } else if offset == 0x04a {
        q == Ppu { winout: value & 0x3f3f, ..p }
    } else if offset == 0x04c {
        q == Ppu { mosaic: value, ..p }
    } else if offset == 0x050 {
        q == Ppu { bldcnt: value & 0x3fff, ..p }
    } else if offset == 0x052 {
        q == Ppu { bldalpha: value & 0x1f1f, ..p }
    } else if offset == 0x054 {
        q == Ppu { bldy: value & 0x1f, ..p }
    } else {
        q == p
    }
}

impl Bus {
    /// Every memory has its hardware size, the chips their invariants, and
    /// no access costs more than 32 cycles.
    pub open spec fn wf(&self) -> bool {
        &&& self.bios@.len() >= 0x4000
        &&& self.ewram@.len() == 0x4_0000
        &&& self.iwram@.len() == 0x8000
        &&& self.ppu.wf()
        &&& self.apu.wf()
        &&& self.cart.wf()
        &&& forall|i: int| 0 <= i < 16 ==> #[trigger] self.wait16[i] <= 32
        &&& forall|i: int| 0 <= i < 16 ==> #[trigger] self.wait32[i] <= 32
        &&& forall|i: int| 0 <= i < 16 ==> #[trigger] self.seq16[i] <= 32
        &&& forall|i: int| 0 <= i < 16 ==> #[trigger] self.seq32[i] <= 32
    }

    /// The memories a program can store to.
    pub open spec fn same_memory(&self, other: &Bus) -> bool {
        &&& self.ewram == other.ewram
        &&& self.iwram == other.iwram
        &&& self.ppu.vram == other.ppu.vram
        &&& self.ppu.palette == other.ppu.palette
        &&& self.ppu.oam == other.ppu.oam
        &&& self.cart.save == other.cart.save
    }

    /// Work RAM and the three video memories are unchanged.
    pub open spec fn same_video_and_ram(&self, other: &Bus) -> bool {
        &&& self.ewram == other.ewram
        &&& self.iwram == other.iwram
        &&& self.ppu.vram == other.ppu.vram
        &&& self.ppu.palette == other.ppu.palette
        &&& self.ppu.oam == other.ppu.oam
    }

    /// Everything but the access timing bookkeeping is unchanged.
    pub open spec fn same_but_timing(&self, other: &Bus) -> bool {
        &&& self.bios == other.bios
        &&& self.ewram == other.ewram
        &&& self.iwram == other.iwram
        &&& self.ppu == other.ppu
        &&& self.apu == other.apu
        &&& self.cart == other.cart
        &&& self.timers == other.timers
        &&& self.dma == other.dma
        &&& self.keyinput == other.keyinput
        &&& self.keycnt == other.keycnt
        &&& self.interrupt_enable == other.interrupt_enable
        &&& self.interrupt_flags == other.interrupt_flags
        &&& self.master_enable == other.master_enable
        &&& self.waitcnt == other.waitcnt
        &&& self.postflg == other.postflg
        &&& self.serial == other.serial
        &&& self.use_hle_bios == other.use_hle_bios
        &&& self.halt_requested == other.halt_requested
        &&& self.frame_ready == other.frame_ready
        &&& self.open_bus == other.open_bus
        &&& self.bios_latch == other.bios_latch
        &&& self.executing_bios == other.executing_bios
        &&& self.wait16 == other.wait16
        &&& self.wait32 == other.wait32
        &&& self.seq16 == other.seq16
        &&& self.seq32 == other.seq32
    }

    /// The halfword an IO register at an even offset reads as.
    pub open spec fn io_value(&self, raw_offset: usize) -> u16 {
        let offset = if raw_offset >= 0x400 && raw_offset & 0xff00 == 0x0800 {
            (0x800 + (raw_offset & 3)) as usize
        } else {
            raw_offset
        };
        if offset == 0x000 {
            self.ppu.dispcnt
        } else if offset == 0x002 {
            self.ppu.green_swap
        } else if offset == 0x004 {
            self.ppu.dispstat
        } else if offset == 0x006 {
            self.ppu.vcount
        } else if 0x008 <= offset <= 0x00e {
            self.ppu.bgcnt[(offset - 0x008) / 2]
        } else if offset == 0x048 {
            self.ppu.winin
        } else if offset == 0x04a {
            self.ppu.winout
        } else if offset == 0x050 {
            self.ppu.bldcnt
        } else if offset == 0x052 {
            self.ppu.bldalpha
        } else if 0x060 <= offset <= 0x0a7 {
            self.apu.register_value(offset)
        } else if offset == 0x0b8 || offset == 0x0bc || offset == 0x0c4 || offset == 0x0c8 || offset
            == 0x0d0 || offset == 0x0d4 || offset == 0x0dc {
            0
        } else if offset == 0x0ba {
            self.dma[0].control
        } else if offset == 0x0c6 {
            self.dma[1].control
        } else if offset == 0x0d2 {
            self.dma[2].control
        } else if offset == 0x0de {
            self.dma[3].control
        } else if 0x100 <= offset <= 0x10e {
            let timer = self.timers.channel[(offset - 0x100) / 4];
            if (offset / 2) % 2 == 0 {
                timer.counter
            } else {
                timer.control
            }
        } else if (0x120 <= offset <= 0x12e) || (0x134 <= offset <= 0x15e) {
            self.serial[((offset - 0x120) / 2) % 16]
        } else if offset == 0x130 {
            self.keyinput
        } else if offset == 0x132 {
            self.keycnt
        } else if offset == 0x200 {
            self.interrupt_enable
        } else if offset == 0x202 {
            self.interrupt_flags
        } else if offset == 0x204 {
            self.waitcnt
        } else if offset == 0x208 {
            if self.master_enable {
                1
            } else {
                0
            }
        } else if offset == 0x300 {
            self.postflg as u16
        } else {
            (self.open_bus >> ((offset & 2) * 8) as u32) as u16
        }
    }

    /// The byte a read of `address` returns, for every access that has no
    /// side effect (all but EEPROM reads).
    pub open spec fn peek8(&self, address: u32) -> u8 {
        let r = region_of(address);
        if r == 0 {
            if address < 0x4000 && self.executing_bios {
                self.bios@[address as int]
            } else if address < 0x4000 {
                word_byte(self.bios_latch, address & 3)
            } else {
                word_byte(self.open_bus, address & 3)
            }
        } else if r == 2 {
            self.ewram@[ewram_index(address)]
        } else if r == 3 {
            self.iwram@[iwram_index(address)]
        } else if r == 4 {
            let offset = (address & 0xffff) as usize;
            let half = self.io_value(offset & !1usize);
            if offset & 1 != 0 {
                (half >> 8u16) as u8
            } else {
                half as u8
            }
        } else if r == 5 {
            self.ppu.palette@[palette_index(address)]
        } else if r == 6 {
            self.ppu.vram@[vram_index(address)]
        } else if r == 7 {
            self.ppu.oam@[palette_index(address)]
        } else if 8 <= r <= 0xd {
            self.cart.rom_byte(address)
        } else if r == 0xe || r == 0xf {
            self.cart.save_byte(address)
        } else {
            word_byte(self.open_bus, address & 3)
        }
    }

    /// Builds a bus around a cartridge and a BIOS image. An image shorter
    /// than 16K is padded with zeros, so that every BIOS address reads.
    pub fn new(rom: Vec<u8>, bios: Vec<u8>) -> (bus: Self)
        ensures
            bus.wf(),
            bus.bios@ == padded_bios(bios@),
            bus.cart.fresh(rom@),
            bus.ppu.dispcnt == 0x0080,
            bus.ppu.dispstat == 0,
            bus.ppu.hblank_line == 0,
            bus.ppu.vram@ == Seq::new(0x18000, |i: int| 0u8),
            bus.ppu.palette@ == Seq::new(0x400, |i: int| 0u8),
            bus.ppu.oam@ == Seq::new(0x400, |i: int| 0u8),
            bus.ppu.framebuffer@ == Seq::new(38400, |i: int| 0u32),
            bus.apu.sample_timer == 0,
            bus.apu.buffer@.len() == 0,
            bus.ewram@ == Seq::new(0x4_0000, |i: int| 0u8),
            bus.iwram@ == Seq::new(0x8000, |i: int| 0u8),
            bus.postflg == 0,
            bus.use_hle_bios,
            !bus.frame_ready,
            bus.open_bus == 0,
            bus.keyinput == 0x03ff,
            bus.interrupt_enable == 0,
            bus.interrupt_flags == 0,
            !bus.master_enable,
            bus.waitcnt == 0,
            bus.access_cycles == 0,
            bus.bios_latch == 0xe129_f000,
            !bus.executing_bios,
            !bus.halt_requested,
            bus.serial[0] == SERIAL_IDLE,
            bus.ppu.vcount == 0,
            bus.ppu.cycles == 0,
    {
        let mut serial: [u16; 16] = [0; 16];
        serial[0] = SERIAL_IDLE;
        serial[1] = SERIAL_IDLE;
        serial[2] = SERIAL_IDLE;
        serial[3] = SERIAL_IDLE;
        let mut bios = bios;
        let ghost supplied = bios@;
        if bios.len() < 0x4000 {
            bios.resize(0x4000, 0);
            proof {
                assert forall|i: int| supplied.len() <= i < 0x4000 implies bios@[i] == 0u8 by {
                    assert(cloned::<u8>(0u8, bios@[i]));
                }
            }
        }
        assert(bios@ =~= padded_bios(supplied));
        let ewram = vec![0; 0x4_0000];
        let iwram = vec![0; 0x8000];
        assert(ewram@ =~= Seq::new(0x4_0000, |i: int| 0u8));
        assert(iwram@ =~= Seq::new(0x8000, |i: int| 0u8));
        let mut bus = Bus {
            bios,
            ewram,
            iwram,
            ppu: Ppu::new(),
            apu: Apu::new(),
            cart: Cart::new(rom),
            timers: Timers::default(),
            dma: [DmaChannel::default(), DmaChannel::default(), DmaChannel::default(), DmaChannel::default()],
            keyinput: 0x03ff,
            keycnt: 0,
            interrupt_enable: 0,
            interrupt_flags: 0,
            master_enable: false,
            waitcnt: 0,
            postflg: 0,
            serial,
            use_hle_bios: true,
            halt_requested: false,
            access_cycles: 0,
            frame_ready: false,
            open_bus: 0,
            bios_latch: 0xe129_f000,
            executing_bios: false,
            wait16: [1; 16],
            wait32: [1; 16],
            seq16: [1; 16],
            seq32: [1; 16],
            next_sequential: 0xffff_ffff,
        };
        bus.update_waitstates();
        bus
    }

    /// Recomputes the access costs from WAITCNT: internal memory is fixed,
    /// the three ROM windows and SRAM take their first and second access
    /// times from the register.
    fn update_waitstates(&mut self)
        ensures
            *final(self) == (Bus {
                wait16: final(self).wait16,
                wait32: final(self).wait32,
                seq16: final(self).seq16,
                seq32: final(self).seq32,
                ..*old(self)
            }),
            forall|i: int| 0 <= i < 16 ==> #[trigger] final(self).wait16[i] <= 32,
            forall|i: int| 0 <= i < 16 ==> #[trigger] final(self).wait32[i] <= 32,
            forall|i: int| 0 <= i < 16 ==> #[trigger] final(self).seq16[i] <= 32,
            forall|i: int| 0 <= i < 16 ==> #[trigger] final(self).seq32[i] <= 32,
            final(self).wait16[8] == 1 + nonsequential_wait((old(self).waitcnt >> 2u16) & 3),
            final(self).seq16[8] == if old(self).waitcnt & 0x0010 != 0 {
                2u32
            } else {
                3u32
            },
    {
        let sram = nonsequential(self.waitcnt & 3);
        let first: [u32; 3] = [
            nonsequential((self.waitcnt >> 2u16) & 3),
            nonsequential((self.waitcnt >> 5u16) & 3),
            nonsequential((self.waitcnt >> 8u16) & 3),
        ];
        let second: [u32; 3] = [
            if self.waitcnt & 0x0010 != 0 {
                1
            } else {
                2
            },
            if self.waitcnt & 0x0080 != 0 {
                1
            } else {
                4
            },
            if self.waitcnt & 0x0400 != 0 {
                1
            } else {
                8
            },
        ];
        // Internal memory.
        let mut wait16: [u32; 16] = [1; 16];
        let mut wait32: [u32; 16] = [1; 16];
        wait16[2] = 3;
        wait32[2] = 6;
        wait32[5] = 2;
        wait32[6] = 2;
        let mut seq16 = wait16;
        let mut seq32 = wait32;
        let mut window: usize = 0;
        while window < 3
            invariant
                window <= 3,
                forall|k: int| 0 <= k < 3 ==> #[trigger] first@[k] <= 8,
                forall|k: int| 0 <= k < 3 ==> #[trigger] second@[k] <= 8,
                forall|i: int| 0 <= i < 16 ==> #[trigger] wait16@[i] <= 32,
                forall|i: int| 0 <= i < 16 ==> #[trigger] wait32@[i] <= 32,
                forall|i: int| 0 <= i < 16 ==> #[trigger] seq16@[i] <= 32,
                forall|i: int| 0 <= i < 16 ==> #[trigger] seq32@[i] <= 32,
                window > 0 ==> wait16@[8] == 1 + first@[0] && seq16@[8] == 1 + second@[0],
            decreases 3 - window,
        {
            let mut mirror: usize = 0;
            while mirror < 2
                invariant
                    window < 3,
                    mirror <= 2,
                    forall|k: int| 0 <= k < 3 ==> #[trigger] first@[k] <= 8,
                    forall|k: int| 0 <= k < 3 ==> #[trigger] second@[k] <= 8,
                    forall|i: int| 0 <= i < 16 ==> #[trigger] wait16@[i] <= 32,
                    forall|i: int| 0 <= i < 16 ==> #[trigger] wait32@[i] <= 32,
                    forall|i: int| 0 <= i < 16 ==> #[trigger] seq16@[i] <= 32,
                    forall|i: int| 0 <= i < 16 ==> #[trigger] seq32@[i] <= 32,
                    window > 0 ==> wait16@[8] == 1 + first@[0] && seq16@[8] == 1 + second@[0],
                    window == 0 && mirror > 0 ==> wait16@[8] == 1 + first@[0] && seq16@[8] == 1
                        + second@[0],
                decreases 2 - mirror,
            {
                let index = 8 + window * 2 + mirror;
                wait16[index] = 1 + first[window];
                wait32[index] = 2 + first[window] + second[window];
                seq16[index] = 1 + second[window];
                seq32[index] = 2 + 2 * second[window];
                mirror = mirror + 1;
            }
            window = window + 1;
        }
        wait16[0xe] = 1 + sram;
        wait16[0xf] = 1 + sram;
        wait32[0xe] = 1 + sram;
        wait32[0xf] = 1 + sram;
        seq16[0xe] = 1 + sram;
        seq16[0xf] = 1 + sram;
        seq32[0xe] = 1 + sram;
        seq32[0xf] = 1 + sram;
        self.wait16 = wait16;
        self.wait32 = wait32;
        self.seq16 = seq16;
        self.seq32 = seq32;
    }

    /// True when WAITCNT has the cartridge prefetch buffer enabled.
    pub open spec fn prefetching(&self) -> bool {
        self.waitcnt & 0x4000 != 0
    }

    /// The cycles an access costs: sequential accesses (the one right after
    /// the previous) are cheaper on the cartridge, and with the prefetch
    /// buffer on, straight-line code fetches from it cost one cycle.
    pub open spec fn access_cost(&self, address: u32, word: bool, code: bool) -> u32 {
        let r = region_of(address) as int;
        let sequential = address == self.next_sequential;
        if code && sequential && self.prefetching() && 8 <= r <= 0xd {
            1
        } else if sequential {
            if word {
                self.seq32[r]
            } else {
                self.seq16[r]
            }
        } else if word {
            self.wait32[r]
        } else {
            self.wait16[r]
        }
    }

    fn charge(&mut self, address: u32, width: u32, code: bool)
        requires
            old(self).wf(),
        ensures
            final(self).wf(),
            final(self).same_but_timing(&*old(self)),
            final(self).access_cycles == old(self).access_cycles.wrapping_add(
                old(self).access_cost(address, width == 4, code),
            ),
            final(self).next_sequential == address.wrapping_add(width),
    {
        let r = region(address);
        let sequential = address == self.next_sequential;
        let cost = if code && sequential && self.waitcnt & 0x4000 != 0 && 8 <= r && r <= 0xd {
            1
        } else if sequential {
            if width == 4 {
                self.seq32[r]
            } else {
                self.seq16[r]
            }
        } else if width == 4 {
            self.wait32[r]
        } else {
            self.wait16[r]
        };
        self.access_cycles = self.access_cycles.wrapping_add(cost);
        self.next_sequential = address.wrapping_add(width);
    }

    /// Writes an IO register without charging the access to the CPU.
    pub fn write16_raw(&mut self, address: u32, value: u16)
        requires
            old(self).wf(),
        ensures
            final(self).wf(),
            store16_done(&*old(self), address & !1u32, value, false, &*final(self)),
            region_of(address) != 4 ==> final(self).access_cycles == old(self).access_cycles,
            region_of(address) == 4 && value & 0x8000 == 0 ==> final(self).same_video_and_ram(
                &*old(self),
            ),
    {
        proof {
            lemma_address_bits(address);
        }
        self.store16(address & !1u32, value, false);
    }

    pub fn raise_irq(&mut self, bits: u16)
        ensures
            *final(self) == (Bus { interrupt_flags: old(self).interrupt_flags | bits, ..*old(self) }),
    {
        self.interrupt_flags = self.interrupt_flags | bits;
    }

    pub fn irq_pending(&self) -> (pending: bool)
        ensures
            pending == (self.master_enable && (self.interrupt_enable & self.interrupt_flags) != 0),
    {
        self.master_enable && (self.interrupt_enable & self.interrupt_flags) != 0
    }

    /// The BIOS interrupt flag mirror at 0x03007FF8, used by `IntrWait`.
    pub fn bios_irq_flags(&self) -> (flags: u16)
        requires
            self.wf(),
        ensures
            flags == half_at(self.iwram@, 0x7ff8),
    {
        (self.iwram[0x7ff8] as u16) | ((self.iwram[0x7ff9] as u16) << 8u16)
    }

    pub fn set_bios_irq_flags(&mut self, value: u16)
        requires
            old(self).wf(),
        ensures
            final(self).wf(),
            final(self).iwram@ == with_half(old(self).iwram@, 0x7ff8, value),
            *final(self) == (Bus { iwram: final(self).iwram, ..*old(self) }),
    {
        self.iwram[0x7ff8] = value as u8;
        self.iwram[0x7ff9] = (value >> 8u16) as u8;
    }

    /// Cycles until the PPU or a timer next has something to do, at least one.
    pub fn cycles_until_event(&self) -> (cycles: u32)
        requires
            self.wf(),
        ensures
            ({
                let video: int = if self.ppu.cycles < crate::ppu::HBLANK_CYCLES {
                    crate::ppu::HBLANK_CYCLES - self.ppu.cycles
                } else {
                    crate::ppu::CYCLES_PER_LINE - self.ppu.cycles
                };
                let timers: int = crate::timer::soonest_from(self.timers.channel@, 0) as int;
                let soonest: int = if video < timers {
                    video
                } else {
                    timers
                };
                cycles == if soonest < 1 {
                    1
                } else {
                    soonest
                }
            }),
    {
        let video = self.ppu.cycles_until_event();
        let timers = self.timers.cycles_until_overflow();
        let soonest = if video < timers {
            video
        } else {
            timers
        };
        if soonest < 1 {
            1
        } else {
            soonest
        }
    }

    // ------------------------------------------------------------- memory

    pub fn read8(&mut self, address: u32) -> (value: u8)
        requires
            old(self).wf(),
        ensures
            final(self).wf(),
            read8_done(&*old(self), address, value, &*final(self)),
    {
        self.charge(address, 1, false);
        self.load8(address)
    }

    pub fn read16(&mut self, address: u32) -> (value: u16)
        requires
            old(self).wf(),
        ensures
            final(self).wf(),
            read16_done(&*old(self), address, value, &*final(self)),
    {
        self.charge(address, 2, false);
        self.load16(address)
    }

    pub fn read32(&mut self, address: u32) -> (value: u32)
        requires
            old(self).wf(),
        ensures
            final(self).wf(),
            read32_done(&*old(self), address, value, &*final(self)),
    {
        self.charge(address, 4, false);
        self.load32(address)
    }

    /// An instruction fetch of a halfword: the BIOS latch records what the
    /// BIOS last fetched, and the open bus what anything last fetched.
    pub fn read16_code(&mut self, address: u32) -> (value: u16)
        requires
            old(self).wf(),
        ensures
            final(self).wf(),
            code16_read(&*old(self), address, value, &*final(self)),
    {
        self.charge(address, 2, true);
        self.executing_bios = address < 0x4000;
        let value = self.load16(address);
        if self.executing_bios {
            self.bios_latch = value as u32 | ((value as u32) << 16u32);
        }
        self.open_bus = value as u32 | ((value as u32) << 16u32);
        value
    }

    /// An instruction fetch of a word.
    pub fn read32_code(&mut self, address: u32) -> (value: u32)
        requires
            old(self).wf(),
        ensures
            final(self).wf(),
            code32_read(&*old(self), address, value, &*final(self)),
    {
        self.charge(address, 4, true);
        self.executing_bios = address < 0x4000;
        let value = self.load32(address);
        if self.executing_bios {
            self.bios_latch = value;
        }
        self.open_bus = value;
        value
    }

    /// Mimics the value the real BIOS leaves behind after a software interrupt.
    pub fn set_bios_latch(&mut self, value: u32)
        ensures
            *final(self) == (Bus { bios_latch: value, ..*old(self) }),
    {
        self.bios_latch = value;
    }

    pub fn write8(&mut self, address: u32, value: u8)
        requires
            old(self).wf(),
        ensures
            final(self).wf(),
            write8_done(&*old(self), address, value, &*final(self)),
    {
        self.charge(address, 1, false);
        assert(*self == charged(&*old(self), address, 1, false));
        self.store8(address, value);
    }

    pub fn write16(&mut self, address: u32, value: u16)
        requires
            old(self).wf(),
        ensures
            final(self).wf(),
            write16_done(&*old(self), address, value, &*final(self)),
    {
        self.charge(address, 2, false);
        assert(*self == charged(&*old(self), address, 2, false));
        self.store16(address, value, false);
    }

    pub fn write32(&mut self, address: u32, value: u32)
        requires
            old(self).wf(),
        ensures
            final(self).wf(),
            write32_done(&*old(self), address, value, &*final(self)),
    {
        self.charge(address, 4, false);
        assert(*self == charged(&*old(self), address, 4, false));
        self.store32(address, value, false);
    }

    fn load8(&mut self, address: u32) -> (value: u8)
        requires
            old(self).wf(),
        ensures
            final(self).wf(),
            !old(self).cart.eeprom_at(address) ==> value == old(self).peek8(address) && *final(self)
                == *old(self),
            old(self).cart.eeprom_at(address) ==> final(self).same_memory(&*old(self)),
            final(self).access_cycles == old(self).access_cycles,
            final(self).next_sequential == old(self).next_sequential,
            final(self).executing_bios == old(self).executing_bios,
    {
        let r = region(address);
        proof {
            lemma_and_le_u32(address, 3);
            lemma_and_le_u32(address, 0x3_ffff);
            lemma_and_le_u32(address, 0x7fff);
            lemma_and_le_u32(address, 0x3ff);
            lemma_and_le_u32(address, 0xffff);
        }
        if r == 0 {
            if address < 0x4000 && self.executing_bios {
                self.bios[address as usize]
            } else if address < 0x4000 {
                (self.bios_latch >> ((address & 3) * 8)) as u8
            } else {
                (self.open_bus >> ((address & 3) * 8)) as u8
            }
        } else if r == 2 {
            self.ewram[(address & 0x3_ffff) as usize]
        } else if r == 3 {
            self.iwram[(address & 0x7fff) as usize]
        } else if r == 4 {
            let offset = (address & 0xffff) as usize;
            proof {
                lemma_clear_low_bit(offset);
            }
            let half = self.read_io(offset & !1usize);
            if offset & 1 != 0 {
                (half >> 8u16) as u8
            } else {
                half as u8
            }
        } else if r == 5 {
            self.ppu.palette[(address & 0x3ff) as usize]
        } else if r == 6 {
            self.ppu.vram[vram_offset(address)]
        } else if r == 7 {
            self.ppu.oam[(address & 0x3ff) as usize]
        } else if 8 <= r && r <= 0xd {
            if self.cart.is_eeprom_address(address) {
                self.cart.read_eeprom() as u8
            } else {
                self.cart.read_rom8(address)
            }
        } else if r == 0xe || r == 0xf {
            self.cart.read_save(address)
        } else {
            (self.open_bus >> ((address & 3) * 8)) as u8
        }
    }

    fn load16(&mut self, raw_address: u32) -> (value: u16)
        requires
            old(self).wf(),
        ensures
            final(self).wf(),
            !old(self).cart.eeprom_at(raw_address & !1u32) ==> *final(self) == *old(self),
            final(self).same_memory(&*old(self)),
            final(self).access_cycles == old(self).access_cycles,
            final(self).next_sequential == old(self).next_sequential,
            final(self).executing_bios == old(self).executing_bios,
            final(self).interrupt_flags == old(self).interrupt_flags,
            region_of(raw_address) == 2 ==> value == half_at(old(self).ewram@, ewram_index(raw_address & !1u32)),
            region_of(raw_address) == 3 ==> value == half_at(old(self).iwram@, iwram_index(raw_address & !1u32)),
            region_of(raw_address) == 5 ==> value == half_at(old(self).ppu.palette@, palette_index(raw_address & !1u32)),
            region_of(raw_address) == 6 ==> value == half_at(old(self).ppu.vram@, vram_index(raw_address & !1u32)),
            region_of(raw_address) == 7 ==> value == half_at(old(self).ppu.oam@, palette_index(raw_address & !1u32)),
            region_of(raw_address) == 4 ==> value == old(self).io_value((raw_address & 0xfffe) as usize),
            !old(self).cart.eeprom_at(raw_address & !1u32) ==> value == peek16(&*old(self), raw_address),
    {
        let address = raw_address & !1u32;
        let r = region(raw_address);
        proof {
            lemma_and_le_u32(address, 0x3_fffe);
            lemma_and_le_u32(address, 0x7ffe);
            lemma_and_le_u32(address, 0x3fe);
            lemma_and_le_u32(address, 2);
            lemma_address_bits(raw_address);
            lemma_address_bits(raw_address);
        }
        if r == 0 {
            if address < 0x4000 && self.executing_bios {
                proof {
                    lemma_address_bits(raw_address);
                }
                (self.bios[address as usize] as u16) | ((self.bios[address as usize + 1] as u16)
                    << 8u16)
            } else {
                (self.bios_latch >> ((address & 2) * 8)) as u16
            }
        } else if r == 2 {
            let index = (address & 0x3_fffe) as usize;
            (self.ewram[index] as u16) | ((self.ewram[index + 1] as u16) << 8u16)
        } else if r == 3 {
            let index = (address & 0x7ffe) as usize;
            (self.iwram[index] as u16) | ((self.iwram[index + 1] as u16) << 8u16)
        } else if r == 4 {
            proof {
                lemma_and_le_u32(raw_address, 0xfffe);
                lemma_address_bits(raw_address);
            }
            self.read_io((raw_address & 0xfffe) as usize)
        } else if r == 5 {
            let index = (address & 0x3fe) as usize;
            (self.ppu.palette[index] as u16) | ((self.ppu.palette[index + 1] as u16) << 8u16)
        } else if r == 6 {
            let index = vram_offset(address);
            proof {
                assert(vram_index(address) % 2 == 0) by {
                    let a = address;
                    lemma_address_bits(raw_address);
                }
            }
            (self.ppu.vram[index] as u16) | ((self.ppu.vram[index + 1] as u16) << 8u16)
        } else if r == 7 {
            let index = (address & 0x3fe) as usize;
            (self.ppu.oam[index] as u16) | ((self.ppu.oam[index + 1] as u16) << 8u16)
        } else if 8 <= r && r <= 0xd {
            if self.cart.is_eeprom_address(address) {
                self.cart.read_eeprom()
            } else {
                self.cart.read_rom16(address)
            }
        } else if r == 0xe || r == 0xf {
            let byte = self.cart.read_save(raw_address) as u16;
            byte | (byte << 8u16)
        } else {
            (self.open_bus >> ((address & 2) * 8)) as u16
        }
    }

    fn load32(&mut self, raw_address: u32) -> (value: u32)
        requires
            old(self).wf(),
        ensures
            final(self).wf(),
            final(self).same_memory(&*old(self)),
            final(self).access_cycles == old(self).access_cycles,
            final(self).next_sequential == old(self).next_sequential,
            final(self).executing_bios == old(self).executing_bios,
            final(self).interrupt_flags == old(self).interrupt_flags,
            region_of(raw_address) == 2 ==> value == word_at(old(self).ewram@, ewram_index(raw_address & !3u32)),
            region_of(raw_address) == 3 ==> value == word_at(old(self).iwram@, iwram_index(raw_address & !3u32)),
            region_of(raw_address) == 2 || region_of(raw_address) == 3 ==> *final(self) == *old(self),
            !old(self).cart.eeprom_at(raw_address & !3u32) && !old(self).cart.eeprom_at(
                (raw_address & !3u32).wrapping_add(2),
            ) ==> value == peek32(&*old(self), raw_address) && *final(self) == *old(self),
    {
        let address = raw_address & !3u32;
        let r = region(raw_address);
        proof {
            lemma_and_le_u32(address, 0x3_fffc);
            lemma_and_le_u32(address, 0x7ffc);
            lemma_and_le_u32(address, 0xfffc);
            lemma_address_bits(raw_address);
            lemma_address_bits(raw_address);
        }
        if r == 0 {
            if address < 0x4000 && self.executing_bios {
                proof {
                    lemma_address_bits(raw_address);
                }
                let index = address as usize;
                (self.bios[index] as u32) | ((self.bios[index + 1] as u32) << 8u32) | ((
                self.bios[index + 2] as u32) << 16u32) | ((self.bios[index + 3] as u32) << 24u32)
            } else {
                self.bios_latch
            }
        } else if r == 2 {
            let index = (address & 0x3_fffc) as usize;
            (self.ewram[index] as u32) | ((self.ewram[index + 1] as u32) << 8u32) | ((
            self.ewram[index + 2] as u32) << 16u32) | ((self.ewram[index + 3] as u32) << 24u32)
        } else if r == 3 {
            let index = (address & 0x7ffc) as usize;
            (self.iwram[index] as u32) | ((self.iwram[index + 1] as u32) << 8u32) | ((
            self.iwram[index + 2] as u32) << 16u32) | ((self.iwram[index + 3] as u32) << 24u32)
        } else if r == 4 {
            let offset = (address & 0xfffc) as usize;
            proof {
                lemma_address_bits(raw_address);
            }
            let low = self.read_io(offset);
            let high = self.read_io(offset + 2);
            low as u32 | ((high as u32) << 16u32)
        } else if r == 0xe || r == 0xf {
            let byte = self.cart.read_save(raw_address) as u32;
            byte * 0x0101_0101
        } else {
            let ghost before = *self;
            proof {
                assert(address.wrapping_add(2) == ((raw_address & !3u32) + 2) as u32);
                assert(address & !1u32 == address);
                assert(address.wrapping_add(2) & !1u32 == address.wrapping_add(2));
            }
            let low = self.load16(address);
            let high = self.load16(address.wrapping_add(2));
            proof {
                if !before.cart.eeprom_at(address) && !before.cart.eeprom_at(
                    address.wrapping_add(2),
                ) {
                    assert(low == peek16(&before, address));
                    assert(high == peek16(&before, address.wrapping_add(2)));
                }
            }
            low as u32 | ((high as u32) << 16u32)
        }
    }

    fn store8(&mut self, address: u32, value: u8)
        requires
            old(self).wf(),
        ensures
            final(self).wf(),
            store8_done(&*old(self), address, value, &*final(self)),
    {
        let r = region(address);
        proof {
            lemma_and_le_u32(address, 0x3_ffff);
            lemma_and_le_u32(address, 0x7fff);
            lemma_and_le_u32(address, 0xffff);
            lemma_and_le_u32(address, 0x3fe);
            lemma_address_bits(address);
        }
        if r == 2 {
            self.ewram[(address & 0x3_ffff) as usize] = value;
        } else if r == 3 {
            self.iwram[(address & 0x7fff) as usize] = value;
        } else if r == 4 {
            self.write_io8((address & 0xffff) as usize, value);
        } else if r == 5 {
            // Byte writes to palette memory duplicate into the halfword.
            let index = (address & 0x3fe) as usize;
            self.ppu.palette[index] = value;
            self.ppu.palette[index + 1] = value;
            proof {
                let v = value;
                lemma_byte_pairs(v, 0);
                assert(self.ppu.palette@ =~= with_half(
                    old(self).ppu.palette@,
                    palette_index(address & !1u32),
                    (value as u16) | ((value as u16) << 8u16),
                ));
            }
        } else if r == 6 {
            // Byte writes only take effect on background VRAM.
            let offset = vram_offset(address);
            let index = offset & !1usize;
            proof {
                lemma_and_le_usize(offset, !1usize);
            }
            let limit: usize = if self.ppu.dispcnt & 7 >= 3 {
                0x14000
            } else {
                0x10000
            };
            if index < limit {
                self.ppu.vram[index] = value;
                self.ppu.vram[index + 1] = value;
                proof {
                    let v = value;
                    lemma_byte_pairs(v, 0);
                    assert(self.ppu.vram@ =~= with_half(
                        old(self).ppu.vram@,
                        index as int,
                        (value as u16) | ((value as u16) << 8u16),
                    ));
                }
            }
        } else if r == 7 {
        } else if 8 <= r && r <= 0xd {
            if self.cart.is_eeprom_address(address) {
                self.cart.write_eeprom(value as u16);
            }
        } else if r == 0xe || r == 0xf {
            self.cart.write_save(address, value);
        }
    }

    fn store16(&mut self, raw_address: u32, value: u16, from_dma: bool)
        requires
            old(self).wf(),
        ensures
            final(self).wf(),
            store16_done(&*old(self), raw_address, value, from_dma, &*final(self)),
        decreases (if from_dma { 0int } else { 1int }), 4int,
    {
        let address = raw_address & !1u32;
        let r = region(raw_address);
        proof {
            lemma_and_le_u32(address, 0x3_fffe);
            lemma_and_le_u32(address, 0x7ffe);
            lemma_and_le_u32(address, 0x3fe);
            lemma_and_le_u32(raw_address, 0xfffe);
            lemma_address_bits(raw_address);
        }
        if r == 2 {
            let index = (address & 0x3_fffe) as usize;
            self.ewram[index] = value as u8;
            self.ewram[index + 1] = (value >> 8u16) as u8;
        } else if r == 3 {
            let index = (address & 0x7ffe) as usize;
            self.iwram[index] = value as u8;
            self.iwram[index + 1] = (value >> 8u16) as u8;
        } else if r == 4 {
            proof {
                lemma_address_bits(raw_address);
            }
            self.write_io((raw_address & 0xfffe) as usize, value, from_dma);
        } else if r == 5 {
            let index = (address & 0x3fe) as usize;
            self.ppu.palette[index] = value as u8;
            self.ppu.palette[index + 1] = (value >> 8u16) as u8;
        } else if r == 6 {
            let index = vram_offset(address);
            proof {
                assert(vram_index(address) % 2 == 0) by {
                    let a = address;
                    lemma_address_bits(raw_address);
                }
            }
            self.ppu.vram[index] = value as u8;
            self.ppu.vram[index + 1] = (value >> 8u16) as u8;
        } else if r == 7 {
            let index = (address & 0x3fe) as usize;
            self.ppu.oam[index] = value as u8;
            self.ppu.oam[index + 1] = (value >> 8u16) as u8;
        } else if 8 <= r && r <= 0xd {
            if self.cart.is_eeprom_address(address) {
                self.cart.write_eeprom(value);
            } else {
                self.cart.write_rom16(address, value);
            }
        } else if r == 0xe || r == 0xf {
            proof {
                lemma_and_le_u32(raw_address, 1);
            }
            let shift = ((raw_address & 1) * 8) as u16;
            let byte = (value >> shift) as u8;
            self.cart.write_save(raw_address, byte);
        }
    }

    fn store32(&mut self, raw_address: u32, value: u32, from_dma: bool)
        requires
            old(self).wf(),
        ensures
            final(self).wf(),
            region_of(raw_address) != 4 || from_dma ==> final(self).access_cycles == old(
                self).access_cycles,
            final(self).next_sequential == old(self).next_sequential,
            region_of(raw_address) == 2 ==> final(self).ewram@ == with_half(
                with_half(old(self).ewram@, ewram_index(raw_address & !3u32), value as u16),
                ewram_index(raw_address & !3u32) + 2,
                (value >> 16u32) as u16,
            ) && final(self).iwram == old(self).iwram,
            region_of(raw_address) == 3 ==> final(self).iwram@ == with_half(
                with_half(old(self).iwram@, iwram_index(raw_address & !3u32), value as u16),
                iwram_index(raw_address & !3u32) + 2,
                (value >> 16u32) as u16,
            ) && final(self).ewram == old(self).ewram,
            store32_done(&*old(self), raw_address, value, from_dma, &*final(self)),
        decreases (if from_dma { 0int } else { 1int }), 5int,
    {
        let address = raw_address & !3u32;
        let r = region(raw_address);
        proof {
            lemma_and_le_u32(address, 0xfffc);
            lemma_and_le_u32(raw_address, 3);
            lemma_address_bits(raw_address);
            let next = (address + 2) as u32;
            lemma_address_bits(raw_address);
        }
        if r == 4 {
            let offset = (address & 0xfffc) as usize;
            proof {
                lemma_address_bits(raw_address);
            }
            if offset == 0xa0 || offset == 0xa4 {
                self.apu.push_fifo((offset - 0xa0) / 4, value);
                return;
            }
            self.write_io(offset, value as u16, from_dma);
            let ghost mid = *self;
            self.write_io(offset + 2, (value >> 16u32) as u16, from_dma);
            assert(io_write_done(&*old(self), offset, value as u16, from_dma, &mid)
                && io_write_done(&mid, (offset + 2) as usize, (value >> 16u32) as u16, from_dma, &*self));
        } else if r == 0xe || r == 0xf {
            let shift = (raw_address & 3) * 8;
            let byte = (value >> shift) as u8;
            self.cart.write_save(raw_address, byte);
        } else {
            self.store16(address, value as u16, from_dma);
            let ghost mid = *self;
            self.store16(address + 2, (value >> 16u32) as u16, from_dma);
            assert(store16_done(&*old(self), address, value as u16, from_dma, &mid)
                && store16_done(&mid, (address + 2) as u32, (value >> 16u32) as u16, from_dma, &*self));
        }
    }

    // ----------------------------------------------------------- io access

    fn read_io(&self, offset: usize) -> (value: u16)
        requires
            self.wf(),
            offset % 2 == 0,
        ensures
            value == self.io_value(offset),
    {
        proof {
            lemma_and_le_usize(offset, 3);
        }
        let offset = if offset >= 0x400 && offset & 0xff00 == 0x0800 {
            0x800 + (offset & 3)
        } else {
            offset
        };
        if offset == 0x000 {
            self.ppu.dispcnt
        } else if offset == 0x002 {
            self.ppu.green_swap
        } else if offset == 0x004 {
            self.ppu.dispstat
        } else if offset == 0x006 {
            self.ppu.vcount
        } else if 0x008 <= offset && offset <= 0x00e {
            self.ppu.bgcnt[(offset - 0x008) / 2]
        } else if offset == 0x048 {
            self.ppu.winin
        } else if offset == 0x04a {
            self.ppu.winout
        } else if offset == 0x050 {
            self.ppu.bldcnt
        } else if offset == 0x052 {
            self.ppu.bldalpha
        } else if 0x060 <= offset && offset <= 0x0a7 {
            self.apu.read_register(offset)
        } else if offset == 0x0b8 || offset == 0x0bc || offset == 0x0c4 || offset == 0x0c8 || offset
            == 0x0d0 || offset == 0x0d4 || offset == 0x0dc {
            0
        } else if offset == 0x0ba {
            self.dma[0].control
        } else if offset == 0x0c6 {
            self.dma[1].control
        } else if offset == 0x0d2 {
            self.dma[2].control
        } else if offset == 0x0de {
            self.dma[3].control
        } else if 0x100 <= offset && offset <= 0x10e {
            let index = (offset - 0x100) / 4;
            self.timers.read(index, (offset / 2) % 2)
        } else if (0x120 <= offset && offset <= 0x12e) || (0x134 <= offset && offset <= 0x15e) {
            self.serial[((offset - 0x120) / 2) % 16]
        } else if offset == 0x130 {
            self.keyinput
        } else if offset == 0x132 {
            self.keycnt
        } else if offset == 0x200 {
            self.interrupt_enable
        } else if offset == 0x202 {
            self.interrupt_flags
        } else if offset == 0x204 {
            self.waitcnt
        } else if offset == 0x208 {
            if self.master_enable {
                1
            } else {
                0
            }
        } else if offset == 0x300 {
            self.postflg as u16
        } else {
            proof {
                lemma_and_le_usize(offset, 2);
            }
            (self.open_bus >> ((offset & 2) * 8) as u32) as u16
        }
    }

    fn write_io8(&mut self, offset: usize, value: u8)
        requires
            old(self).wf(),
        ensures
            final(self).wf(),
            !(0x0b0 <= offset <= 0x0df) ==> final(self).access_cycles == old(self).access_cycles,
            final(self).next_sequential == old(self).next_sequential,
            !(0x0b0 <= offset <= 0x0df) ==> final(self).ewram == old(self).ewram && final(
                self).iwram == old(self).iwram && final(self).ppu.palette == old(self).ppu.palette
                && final(self).ppu.oam == old(self).ppu.oam,
            offset == 0x301 ==> final(self).halt_requested,
            io8_write_done(&*old(self), offset, value, &*final(self)),
    {
        if offset == 0x202 || offset == 0x203 {
            // Writing a one acknowledges that interrupt.
            let shift: u16 = if offset == 0x203 {
                8
            } else {
                0
            };
            self.interrupt_flags = self.interrupt_flags & !((value as u16) << shift);
        } else if 0x0a0 <= offset && offset <= 0x0a7 {
            self.apu.push_fifo((offset - 0xa0) / 4, value as u32);
        } else if offset == 0x301 {
            // HALTCNT: the processor stops until an interrupt arrives.
            self.halt_requested = true;
        } else {
            let aligned = offset & !1usize;
            proof {
                lemma_clear_low_bit(offset);
            }
            let current = if aligned <= 0xffff {
                self.read_io(aligned)
            } else {
                0
            };
            let updated = if offset & 1 != 0 {
                (current & 0x00ff) | ((value as u16) << 8u16)
            } else {
                (current & 0xff00) | value as u16
            };
            self.write_io(aligned, updated, false);
        }
    }

    #[verifier::spinoff_prover]
    #[verifier::rlimit(100)]
    fn write_io(&mut self, offset: usize, value: u16, from_dma: bool)
        requires
            old(self).wf(),
            offset % 2 == 0,
        ensures
            final(self).wf(),
            io_write_done(&*old(self), offset, value, from_dma, &*final(self)),
        decreases (if from_dma { 0int } else { 1int }), 3int,
    {
        proof {
            lemma_and_le_u16(value, 0x1ff);
        }
        if offset == 0x000 {
            self.ppu.dispcnt = value;
        } else if offset == 0x002 {
            self.ppu.green_swap = value;
        } else if offset == 0x004 {
            self.ppu.dispstat = (self.ppu.dispstat & 0x0007) | (value & 0xff38);
        } else if 0x008 <= offset && offset <= 0x00e {
            self.ppu.bgcnt[(offset - 0x008) / 2] = value;
        } else if 0x010 <= offset && offset <= 0x01e {
            let index = (offset - 0x010) / 4;
            if offset & 2 == 0 {
                self.ppu.bghofs[index] = value & 0x1ff;
            } else {
                self.ppu.bgvofs[index] = value & 0x1ff;
            }
        } else if offset == 0x020 || offset == 0x030 {
            self.ppu.bgpa[(offset - 0x020) / 16] = value as i16;
        } else if offset == 0x022 || offset == 0x032 {
            self.ppu.bgpb[(offset - 0x022) / 16] = value as i16;
        } else if offset == 0x024 || offset == 0x034 {
            self.ppu.bgpc[(offset - 0x024) / 16] = value as i16;
        } else if offset == 0x026 || offset == 0x036 {
            self.ppu.bgpd[(offset - 0x026) / 16] = value as i16;
        } else if offset == 0x028 || offset == 0x02a || offset == 0x038 || offset == 0x03a {
            let index = (offset - 0x028) / 16;
            let current = self.ppu.bgx[index] as u32;
            let updated = if offset & 2 == 0 {
                (current & 0xffff_0000) | value as u32
            } else {
                (current & 0x0000_ffff) | ((value as u32) << 16u32)
            };
            self.ppu.set_bgx(index, sign_extend_28(updated));
        } else if offset == 0x02c || offset == 0x02e || offset == 0x03c || offset == 0x03e {
            let index = (offset - 0x02c) / 16;
            let current = self.ppu.bgy[index] as u32;
            let updated = if offset & 2 == 0 {
                (current & 0xffff_0000) | value as u32
            } else {
                (current & 0x0000_ffff) | ((value as u32) << 16u32)
            };
            self.ppu.set_bgy(index, sign_extend_28(updated));
        } else if offset == 0x040 || offset == 0x042 {
            self.ppu.winh[(offset - 0x040) / 2] = value;
        } else if offset == 0x044 || offset == 0x046 {
            self.ppu.winv[(offset - 0x044) / 2] = value;
        } else if offset == 0x048 {
            self.ppu.winin = value & 0x3f3f;
        } else if offset == 0x04a {
            self.ppu.winout = value & 0x3f3f;
        } else if offset == 0x04c {
            self.ppu.mosaic = value;
        } else if offset == 0x050 {
            self.ppu.bldcnt = value & 0x3fff;
        } else if offset == 0x052 {
            self.ppu.bldalpha = value & 0x1f1f;
        } else if offset == 0x054 {
            self.ppu.bldy = value & 0x1f;
        } else if 0x060 <= offset && offset <= 0x0a7 {
            self.apu.write_register(offset, value);
        } else if 0x0b0 <= offset && offset <= 0x0de {
            self.write_dma(offset, value, from_dma);
        } else if 0x100 <= offset && offset <= 0x10e {
            let index = (offset - 0x100) / 4;
            if offset & 2 == 0 {
                self.timers.write_reload(index, value);
            } else {
                self.timers.write_control(index, value);
            }
        } else if offset == 0x128 {
            self.write_serial_control(value);
        } else if (0x120 <= offset && offset <= 0x12e) || (0x134 <= offset && offset <= 0x15e) {
            self.serial[((offset - 0x120) / 2) % 16] = value;
        } else if offset == 0x132 {
            self.keycnt = value;
        } else if offset == 0x200 {
            self.interrupt_enable = value & 0x3fff;
        } else if offset == 0x202 {
            self.interrupt_flags = self.interrupt_flags & !value;
        } else if offset == 0x204 {
            self.waitcnt = value;
            self.update_waitstates();
        } else if offset == 0x208 {
            self.master_enable = value & 1 != 0;
        } else if offset == 0x300 {
            self.postflg = value as u8;
        }
    }

    /// SIOCNT. With no link partner a transfer finishes at once: the data
    /// registers read all ones, the busy bit clears and the serial
    /// interrupt fires if enabled.
    fn write_serial_control(&mut self, value: u16)
        requires
            old(self).wf(),
        ensures
            final(self).wf(),
            final(self).access_cycles == old(self).access_cycles,
            final(self).next_sequential == old(self).next_sequential,
            final(self).same_memory(&*old(self)),
            final(self).ppu == old(self).ppu,
            final(self).serial[4] == value & !0x0080u16,
            value & 0x0080 != 0 && value & 0x4000 != 0 ==> final(self).interrupt_flags == old(
                self).interrupt_flags | IRQ_SERIAL,
            !(value & 0x0080 != 0 && value & 0x4000 != 0) ==> final(self).interrupt_flags == old(
                self).interrupt_flags,
    {
        if value & 0x0080 != 0 {
            self.serial[0] = SERIAL_IDLE;
            self.serial[1] = SERIAL_IDLE;
            self.serial[2] = SERIAL_IDLE;
            self.serial[3] = SERIAL_IDLE;
            if value & 0x4000 != 0 {
                self.raise_irq(IRQ_SERIAL);
            }
        }
        self.serial[4] = value & !0x0080u16;
    }

    // ----------------------------------------------------------------- dma

    #[verifier::spinoff_prover]
    #[verifier::rlimit(100)]
    fn write_dma(&mut self, offset: usize, value: u16, from_dma: bool)
        requires
            old(self).wf(),
            0x0b0 <= offset <= 0x0de,
        ensures
            final(self).wf(),
            from_dma ==> final(self).access_cycles == old(self).access_cycles,
            final(self).next_sequential == old(self).next_sequential,
            from_dma ==> final(self).ewram == old(self).ewram && final(self).iwram == old(self).iwram
                && final(self).ppu == old(self).ppu,
            value & 0x8000 == 0 ==> final(self).ewram == old(self).ewram && final(self).iwram
                == old(self).iwram && final(self).ppu == old(self).ppu,
            dma_register_written(&*old(self), offset as int, value, from_dma, &*final(self)),
        decreases (if from_dma { 0int } else { 1int }), 2int,
    {
        let channel = (offset - 0x0b0) / 12;
        if channel > 3 {
            return;
        }
        let register = (offset - 0x0b0) % 12;
        let source_mask: u32 = if channel == 0 {
            0x07ff_fffe
        } else {
            0x0fff_fffe
        };
        let destination_mask: u32 = if channel == 3 {
            0x0fff_fffe
        } else {
            0x07ff_fffe
        };
        let mut dma = self.dma[channel];
        if register == 0 {
            dma.source = (dma.source & 0xffff_0000) | value as u32;
            self.dma[channel] = dma;
            assert(self.dma@ =~= old(self).dma@.update(channel as int, dma));
        } else if register == 2 {
            dma.source = (dma.source & 0x0000_ffff) | ((value as u32) << 16u32);
            self.dma[channel] = dma;
            assert(self.dma@ =~= old(self).dma@.update(channel as int, dma));
        } else if register == 4 {
            dma.destination = (dma.destination & 0xffff_0000) | value as u32;
            self.dma[channel] = dma;
            assert(self.dma@ =~= old(self).dma@.update(channel as int, dma));
        } else if register == 6 {
            dma.destination = (dma.destination & 0x0000_ffff) | ((value as u32) << 16u32);
            self.dma[channel] = dma;
            assert(self.dma@ =~= old(self).dma@.update(channel as int, dma));
        } else if register == 8 {
            dma.count = value;
            self.dma[channel] = dma;
            assert(self.dma@ =~= old(self).dma@.update(channel as int, dma));
        } else if register == 10 {
            let was_enabled = dma.enabled();
            dma.control = value;
            let ghost mut armed = *self;
            let ghost mut detected = *self;
            if !was_enabled && dma.enabled() {
                dma.internal_source = dma.source & source_mask;
                dma.internal_destination = dma.destination & destination_mask;
                dma.internal_count = latched_count(channel, dma.count);
                let immediate = dma.timing() == DmaTiming::Immediate;
                self.dma[channel] = dma;
                proof {
                    armed = *self;
                    assert(armed.dma@ =~= old(self).dma@.update(channel as int, dma));
                }
                self.maybe_detect_eeprom(channel);
                proof {
                    detected = *self;
                }
                if immediate && !from_dma {
                    self.run_dma(channel);
                }
            } else {
                self.dma[channel] = dma;
                assert(self.dma@ =~= old(self).dma@.update(channel as int, dma));
            }
            let ghost ran = *self;
            if !self.dma[channel].enabled() {
                self.dma[channel].active = false;
                assert(self.dma@ =~= ran.dma@.update(
                    channel as int,
                    DmaChannel { active: false, ..ran.dma[channel as int] },
                ));
            }
            proof {
                assert(dma_settled(&ran, channel as int, &*self));
                if !was_enabled && dma.is_enabled() {
                    assert(eeprom_checked(&armed, channel as int, &detected));
                }
            }
        } else {
            assert(self.dma@ =~= old(self).dma@.update(channel as int, old(self).dma[channel as int]));
        }
    }

    /// EEPROM size is implied by how many bits the game clocks out.
    fn maybe_detect_eeprom(&mut self, channel: usize)
        requires
            old(self).wf(),
            channel < 4,
        ensures
            final(self).wf(),
            final(self).access_cycles == old(self).access_cycles,
            final(self).next_sequential == old(self).next_sequential,
            final(self).ewram == old(self).ewram,
            final(self).iwram == old(self).iwram,
            final(self).ppu == old(self).ppu,
            final(self).dma == old(self).dma,
            eeprom_checked(&*old(self), channel as int, &*final(self)),
    {
        if !(self.cart.kind == SaveKind::Eeprom512 || self.cart.kind == SaveKind::Eeprom8k) {
            return;
        }
        let dma = self.dma[channel];
        let destination = dma.internal_destination;
        if !self.cart.is_eeprom_address(destination) {
            return;
        }
        let kind = if dma.internal_count == 9 || dma.internal_count == 73 {
            SaveKind::Eeprom512
        } else if dma.internal_count == 17 || dma.internal_count == 81 {
            SaveKind::Eeprom8k
        } else {
            return;
        };
        if self.cart.kind != kind {
            self.cart.kind = kind;
            let save = vec![0xff; kind.size()];
            assert(save@ =~= Seq::new(save_size(kind) as nat, |i: int| 0xffu8));
            self.cart.save = save;
        }
    }

    /// Runs every enabled channel started by `timing`.
    #[verifier::spinoff_prover]
    #[verifier::rlimit(60)]
    pub fn trigger_dma(&mut self, timing: DmaTiming)
        requires
            old(self).wf(),
        ensures
            final(self).wf(),
            exists|chain: Seq<Bus>| #[trigger] dmas_triggered(chain, &*old(self), &*final(self), timing),
    {
        let ghost mut chain: Seq<Bus> = seq![*self];
        let mut channel: usize = 0;
        while channel < 4
            invariant
                self.wf(),
                channel <= 4,
                chain.len() == channel + 1,
                chain[0] == *old(self),
                chain.last() == *self,
                forall|c: int|
                    0 <= c < channel ==> if dma_starts(&chain[c], c, timing) {
                        dma_run_done(&chain[c], c as usize, &#[trigger] chain[c + 1])
                    } else {
                        chain[c + 1] == chain[c]
                    },
            decreases 4 - channel,
        {
            let ghost before = chain;
            if self.dma[channel].enabled() && self.dma[channel].timing() == timing {
                self.run_dma(channel);
            }
            proof {
                chain = chain.push(*self);
                assert forall|c: int| 0 <= c < channel + 1 implies if dma_starts(&chain[c], c, timing) {
                    dma_run_done(&chain[c], c as usize, &#[trigger] chain[c + 1])
                } else {
                    chain[c + 1] == chain[c]
                } by {
                    if c < channel {
                        assert(chain[c] == before[c]);
                        assert(chain[c + 1] == before[c + 1]);
                    }
                }
            }
            channel = channel + 1;
        }
        assert(dmas_triggered(chain, &*old(self), &*self, timing));
    }

    /// Refills a sound FIFO from the channel pointed at it: four words.
    fn run_fifo_dma(&mut self, fifo: usize)
        requires
            old(self).wf(),
            fifo < 2,
        ensures
            final(self).wf(),
    {
        let mut channel: usize = 1;
        while channel <= 2
            invariant
                self.wf(),
                1 <= channel <= 3,
                fifo < 2,
            decreases 3 - channel,
        {
            let dma = self.dma[channel];
            let target = 0x0400_00a0u32 + fifo as u32 * 4;
            if dma.enabled() && dma.timing() == DmaTiming::Special && dma.internal_destination
                == target {
                let mut source = dma.internal_source;
                let mut word: usize = 0;
                while word < 4
                    invariant
                        self.wf(),
                        word <= 4,
                        fifo < 2,
                        channel <= 2,
                    decreases 4 - word,
                {
                    let value = self.load32(source & !3u32);
                    self.apu.push_fifo(fifo, value);
                    source = source.wrapping_add(4);
                    word = word + 1;
                }
                self.dma[channel].internal_source = source;
                self.access_cycles = self.access_cycles.wrapping_add(8);
                if dma.irq() {
                    self.raise_irq(1u16 << (8 + channel) as u16);
                }
            }
            channel = channel + 1;
        }
    }

    /// Copies a channel's block, steps its addresses, raises its interrupt
    /// and either re-arms it (repeating, not immediate) or switches it off.
    fn run_dma(&mut self, channel: usize)
        requires
            old(self).wf(),
            channel < 4,
        ensures
            final(self).wf(),
            dma_run_done(&*old(self), channel, &*final(self)),
        decreases 1int, 1int,
    {
        let dma = self.dma[channel];
        let word = dma.word() || dma.timing() == DmaTiming::Special;
        let width: u32 = if word {
            4
        } else {
            2
        };
        let source_control = dma.source_control();
        let destination_control = dma.destination_control();
        let mut source = dma.internal_source & !(width - 1);
        let mut destination = dma.internal_destination & !(width - 1);
        let count = dma.internal_count;
        let mut done: u32 = 0;
        while done < count
            invariant
                self.wf(),
                self.next_sequential == old(self).next_sequential,
                done <= count,
                width == 2 || width == 4,
            decreases count - done,
        {
            if word {
                let value = self.load32(source);
                self.store32(destination, value, true);
            } else {
                let value = self.load16(source);
                self.store16(destination, value, true);
            }
            source = if source_control == 0 {
                source.wrapping_add(width)
            } else if source_control == 1 {
                source.wrapping_sub(width)
            } else {
                source
            };
            destination = if destination_control == 0 || destination_control == 3 {
                destination.wrapping_add(width)
            } else if destination_control == 1 {
                destination.wrapping_sub(width)
            } else {
                destination
            };
            done = done + 1;
        }
        self.access_cycles = self.access_cycles.wrapping_add(count.wrapping_mul(width).wrapping_add(2));
        let mut updated = self.dma[channel];
        updated.internal_source = source;
        if destination_control == 3 {
            updated.internal_destination = dma.destination & if channel == 3 {
                0x0fff_fffeu32
            } else {
                0x07ff_fffeu32
            };
        } else {
            updated.internal_destination = destination;
        }
        if dma.repeats() && dma.timing() != DmaTiming::Immediate {
            updated.internal_count = latched_count(channel, updated.count);
        } else {
            let before = updated.control;
            updated.control = before & !0x8000u16;
            proof {
                lemma_control_bits(before);
            }
        }
        self.dma[channel] = updated;
        if dma.irq() {
            self.raise_irq(1u16 << (8 + channel) as u16);
        }
    }

    /// DMA3's video capture mode copies one block per line from line two to
    /// line 161, and switches itself off at line 162.
    fn video_capture(&mut self, line: u16)
        requires
            old(self).wf(),
        ensures
            final(self).wf(),
            video_captured(&*old(self), line, &*final(self)),
    {
        let dma = self.dma[3];
        if !dma.enabled() || dma.timing() != DmaTiming::Special {
            return;
        }
        if 2 <= line && line < 162 {
            self.run_dma(3);
        } else if line == 162 {
            self.dma[3].control = self.dma[3].control & !0x8000u16;
        }
    }

    /// Drives every peripheral forward by the cycles an instruction took.
    /// Runs the video unit, timers, sound, DMA and keypad for `cycles`.
    #[verifier::rlimit(60)]
    #[verifier::spinoff_prover]
    pub fn run_cycles(&mut self, cycles: u32)
        requires
            old(self).wf(),
        ensures
            final(self).wf(),
            ran(*old(self), cycles, *final(self)),
    {
        let (ppu_irq, events) = self.ppu.tick(cycles);
        self.raise_irq(ppu_irq);
        let ghost s1 = *self;
        let (timer_irq, fifo) = self.timers.tick(cycles);
        self.raise_irq(timer_irq);
        let ghost s2 = *self;
        self.apu.tick(cycles);
        let ghost s3 = *self;
        if events & EVENT_HBLANK != 0 {
            self.trigger_dma(DmaTiming::HBlank);
        }
        let ghost s4 = *self;
        if events & EVENT_HBLANK_ANY != 0 {
            let line = self.ppu.hblank_line;
            self.video_capture(line);
        }
        let ghost s5 = *self;
        if events & EVENT_VBLANK != 0 {
            self.trigger_dma(DmaTiming::VBlank);
        }
        let ghost s6 = *self;
        if events & EVENT_FRAME != 0 {
            self.frame_ready = true;
        }
        let ghost s7 = *self;
        let mut timer: usize = 0;
        while timer < 2
            invariant
                self.wf(),
                timer <= 2,
                fifo & 3 == 0 ==> *self == s7,
            decreases 2 - timer,
        {
            if fifo & (1u8 << timer as u8) != 0 {
                let requests = self.apu.timer_overflow(timer);
                if requests[0] {
                    self.run_fifo_dma(0);
                }
                if requests[1] {
                    self.run_fifo_dma(1);
                }
            }
            proof {
                let t = timer as u8;
                assert(fifo & 3 == 0 ==> fifo & (1u8 << t) == 0) by (bit_vector)
                    requires
                        t < 2,
                ;
            }
            timer = timer + 1;
        }
        let ghost s8 = *self;
        if self.keycnt & 0x4000 != 0 {
            let mask = self.keycnt & 0x3ff;
            let pressed = !self.keyinput & 0x3ff;
            let triggered = if self.keycnt & 0x8000 != 0 {
                pressed & mask == mask && mask != 0
            } else {
                pressed & mask != 0
            };
            if triggered {
                self.raise_irq(IRQ_KEYPAD);
            }
        }
        assert(cycles_run(*old(self), cycles, s1, s2, s3, s4, s5, s6, s7, s8, *self)) by {
            reveal(cycles_run);
        }
    }
}

/// A line's horizontal blank seen by DMA3 in video capture mode: it runs on
/// lines 2 to 161 and switches itself off at line 162.
pub open spec fn video_captured(a: &Bus, line: u16, b: &Bus) -> bool {
    &&& {
            let dma = a.dma[3];
            if !dma.is_enabled() || timing_of(dma.control) != DmaTiming::Special {
                *b == *a
            } else if 2 <= line < 162 {
                dma_run_done(&*a, 3, &*b)
            } else if line == 162 {
                &&& *b == (Bus { dma: b.dma, ..*a })
                &&& b.dma@ == a.dma@.update(
                    3,
                    DmaChannel { control: dma.control & !0x8000u16, ..dma },
                )
            } else {
                *b == *a
            }
        }
}

/// Whether the keypad interrupt condition of KEYCNT holds: any selected
/// key pressed, or with bit 15 all of them.
pub open spec fn keypad_triggered(b: &Bus) -> bool {
    let mask = b.keycnt & 0x3ff;
    let pressed = !b.keyinput & 0x3ff;
    &&& b.keycnt & 0x4000 != 0
    &&& if b.keycnt & 0x8000 != 0 {
        pressed & mask == mask && mask != 0
    } else {
        pressed & mask != 0
    }
}

/// `cycles` of the machine around the processor, through some bus states
/// as `cycles_run` says.
pub open spec fn ran(a: Bus, cycles: u32, b: Bus) -> bool {
    exists|s1: Bus, s2: Bus, s3: Bus, s4: Bus, s5: Bus, s6: Bus, s7: Bus, s8: Bus|
        #[trigger] cycles_run(a, cycles, s1, s2, s3, s4, s5, s6, s7, s8, b)
}

/// `cycles` of the machine around the processor, through the bus states it
/// passes: the video unit ticked and its interrupts raised (`s1`), the
/// timers ticked and theirs raised (`s2`), the sound unit ticked (`s3`),
/// H-blank DMA (`s4`), video capture (`s5`), V-blank DMA (`s6`), a finished
/// frame flagged (`s7`), the sound FIFOs fed from timer overflows (`s8`),
/// and the keypad interrupt.
#[verifier::opaque]
pub open spec fn cycles_run(
    a: Bus,
    cycles: u32,
    s1: Bus,
    s2: Bus,
    s3: Bus,
    s4: Bus,
    s5: Bus,
    s6: Bus,
    s7: Bus,
    s8: Bus,
    b: Bus,
) -> bool {
    let after = crate::ppu::timing_after(
        a.ppu.dispstat,
        a.ppu.vcount,
        a.ppu.hblank_line,
        a.ppu.cycles as int,
        cycles as int,
    );
    let events = after.events;
    let timed = crate::timer::tick_from(s1.timers.channel@, cycles, 0, 0, 0, 0);
    &&& crate::ppu::ppu_ticked(&a.ppu, cycles, (after.irq, after.events), &s1.ppu)
    &&& s1 == (Bus { ppu: s1.ppu, interrupt_flags: a.interrupt_flags | after.irq, ..a })
    &&& s2.timers.channel@ == timed.0
    &&& s2 == (Bus { timers: s2.timers, interrupt_flags: s1.interrupt_flags | timed.1, ..s1 })
    &&& crate::apu::apu_ticked(&s2.apu, cycles, &s3.apu)
    &&& s3 == (Bus { apu: s3.apu, ..s2 })
    &&& if events & EVENT_HBLANK != 0 {
        exists|chain: Seq<Bus>| #[trigger] dmas_triggered(chain, &s3, &s4, DmaTiming::HBlank)
    } else {
        s4 == s3
    }
    &&& if events & EVENT_HBLANK_ANY != 0 {
        video_captured(&s4, s4.ppu.hblank_line, &s5)
    } else {
        s5 == s4
    }
    &&& if events & EVENT_VBLANK != 0 {
        exists|chain: Seq<Bus>| #[trigger] dmas_triggered(chain, &s5, &s6, DmaTiming::VBlank)
    } else {
        s6 == s5
    }
    &&& s7 == if events & EVENT_FRAME != 0 {
        Bus { frame_ready: true, ..s6 }
    } else {
        s6
    }
    &&& timed.2 & 3 == 0 ==> s8 == s7
    &&& b == if keypad_triggered(&s8) {
        Bus { interrupt_flags: s8.interrupt_flags | IRQ_KEYPAD, ..s8 }
    } else {
        s8
    }
}

/// The bus after an access of `width` bytes at `address` was charged: its
/// cost added to the cycle count and the next sequential address moved on.
pub open spec fn charged(a: &Bus, address: u32, width: u32, code: bool) -> Bus {
    Bus {
        access_cycles: a.access_cycles.wrapping_add(a.access_cost(address, width == 4, code)),
        next_sequential: address.wrapping_add(width),
        ..*a
    }
}

/// The bus as an instruction fetch of `width` bytes at `address` reads it:
/// the fetch charged, and the BIOS readable exactly when it runs there.
pub open spec fn fetching(a: &Bus, address: u32, width: u32) -> Bus {
    Bus { executing_bios: address < 0x4000, ..charged(a, address, width, true) }
}

/// The halfword a read of `raw_address` returns, away from an EEPROM: the
/// BIOS only while it runs (else the last word it fetched), the memories
/// and I/O registers what they hold, backup memory its byte twice over, and
/// unmapped space the last value on the bus.
pub open spec fn peek16(a: &Bus, raw_address: u32) -> u16 {
    let address = raw_address & !1u32;
    let r = region_of(raw_address);
    if r == 0 {
        if address < 0x4000 && a.executing_bios {
            half_at(a.bios@, address as int)
        } else {
            (a.bios_latch >> ((address & 2) * 8)) as u16
        }
    } else if r == 2 {
        half_at(a.ewram@, ewram_index(address))
    } else if r == 3 {
        half_at(a.iwram@, iwram_index(address))
    } else if r == 4 {
        a.io_value((raw_address & 0xfffe) as usize)
    } else if r == 5 {
        half_at(a.ppu.palette@, palette_index(address))
    } else if r == 6 {
        half_at(a.ppu.vram@, vram_index(address))
    } else if r == 7 {
        half_at(a.ppu.oam@, palette_index(address))
    } else if 8 <= r <= 0xd {
        a.cart.rom_half(address)
    } else if r == 0xe || r == 0xf {
        (a.cart.save_byte(raw_address) as u16) | ((a.cart.save_byte(raw_address) as u16) << 8u16)
    } else {
        (a.open_bus >> ((address & 2) * 8)) as u16
    }
}

/// The word a read of `raw_address` returns, away from an EEPROM: the
/// BIOS, work RAM and I/O registers read whole, backup memory its byte four
/// times over, and everything else as two `peek16` halves.
pub open spec fn peek32(a: &Bus, raw_address: u32) -> u32 {
    let address = raw_address & !3u32;
    let r = region_of(raw_address);
    if r == 0 && address < 0x4000 && a.executing_bios {
        word_at(a.bios@, address as int)
    } else if r == 0 {
        a.bios_latch
    } else if r == 2 {
        word_at(a.ewram@, ewram_index(address))
    } else if r == 3 {
        word_at(a.iwram@, iwram_index(address))
    } else if r == 4 {
        let offset = (address & 0xfffc) as usize;
        (a.io_value(offset) as u32) | ((a.io_value((offset + 2) as usize) as u32) << 16u32)
    } else if r == 0xe || r == 0xf {
        ((a.cart.save_byte(raw_address) as u32) * 0x0101_0101) as u32
    } else {
        (peek16(a, address) as u32) | ((peek16(a, address.wrapping_add(2)) as u32) << 16u32)
    }
}

/// An instruction fetch of the halfword `value` at `address`: charged, the
/// BIOS marked running or not, and the fetch latched on the bus.
pub open spec fn code16_read(a: &Bus, address: u32, value: u16, b: &Bus) -> bool {
    &&& b.access_cycles == a.access_cycles.wrapping_add(
            a.access_cost(address, false, true),
        )
    &&& b.executing_bios == (address < 0x4000)
    &&& b.open_bus == (value as u32 | ((value as u32) << 16u32))
    &&& !a.cart.eeprom_at(address & !1u32) ==> ({
            let fetching = fetching(&*a, address, 2);
            let seen = value as u32 | ((value as u32) << 16u32);
            &&& value == peek16(&fetching, address)
            &&& *b == (Bus {
                open_bus: seen,
                bios_latch: if address < 0x4000 {
                    seen
                } else {
                    a.bios_latch
                },
                ..fetching
            })
        })
}

/// An instruction fetch of the word `value` at `address`.
pub open spec fn code32_read(a: &Bus, address: u32, value: u32, b: &Bus) -> bool {
    &&& b.access_cycles == a.access_cycles.wrapping_add(
            a.access_cost(address, true, true),
        )
    &&& b.executing_bios == (address < 0x4000)
    &&& b.open_bus == value
    &&& !a.cart.eeprom_at(address & !3u32) && !a.cart.eeprom_at(
            (address & !3u32).wrapping_add(2),
        ) ==> ({
            let fetching = fetching(&*a, address, 4);
            &&& value == peek32(&fetching, address)
            &&& *b == (Bus {
                open_bus: value,
                bios_latch: if address < 0x4000 {
                    value
                } else {
                    a.bios_latch
                },
                ..fetching
            })
        })
}

/// A byte read: its cost charged, and, away from an EEPROM, the byte that
/// memory holds with nothing but timing changed.
pub open spec fn read8_done(a: &Bus, address: u32, value: u8, b: &Bus) -> bool {
    &&& b.access_cycles == a.access_cycles.wrapping_add(
        a.access_cost(address, false, false),
        )
    &&& !a.cart.eeprom_at(address) ==> value == a.peek8(address)
        && b.same_but_timing(a)
}

/// A halfword read: its cost charged, and the halfword that work RAM,
/// video memory or an I/O register holds.
pub open spec fn read16_done(a: &Bus, address: u32, value: u16, b: &Bus) -> bool {
    &&& b.access_cycles == a.access_cycles.wrapping_add(
        a.access_cost(address, false, false),
        )
    &&& !a.cart.eeprom_at(address & !1u32) ==> b.same_but_timing(a)
    &&& region_of(address) == 2 ==> value == half_at(a.ewram@, ewram_index(address & !1u32))
    &&& region_of(address) == 3 ==> value == half_at(a.iwram@, iwram_index(address & !1u32))
    &&& region_of(address) == 5 ==> value == half_at(a.ppu.palette@, palette_index(address & !1u32))
    &&& region_of(address) == 6 ==> value == half_at(a.ppu.vram@, vram_index(address & !1u32))
    &&& region_of(address) == 7 ==> value == half_at(a.ppu.oam@, palette_index(address & !1u32))
    &&& region_of(address) == 4 ==> value == a.io_value((address & 0xfffe) as usize)
    &&& !a.cart.eeprom_at(address & !1u32) ==> value == peek16(a, address)
}

/// A word read: its cost charged, and the word that work RAM holds, with
/// nothing but timing changed.
pub open spec fn read32_done(a: &Bus, address: u32, value: u32, b: &Bus) -> bool {
    &&& b.access_cycles == a.access_cycles.wrapping_add(
        a.access_cost(address, true, false),
        )
    &&& region_of(address) == 2 ==> value == word_at(a.ewram@, ewram_index(address & !3u32))
    &&& region_of(address) == 3 ==> value == word_at(a.iwram@, iwram_index(address & !3u32))
    &&& region_of(address) == 2 || region_of(address) == 3 ==> b.same_but_timing(a)
    &&& !a.cart.eeprom_at(address & !3u32) && !a.cart.eeprom_at((address & !3u32).wrapping_add(2))
        ==> value == peek32(a, address) && b.same_but_timing(a)
}

/// A byte write: work RAM takes the byte, palette memory and background
/// VRAM the byte twice over, object memory nothing.
pub open spec fn write8_done(a: &Bus, address: u32, value: u8, b: &Bus) -> bool {
    &&& region_of(address) == 2 ==> b.ewram@ == a.ewram@.update(
        ewram_index(address),
        value,
        ) && b.iwram == a.iwram
    &&& region_of(address) == 3 ==> b.iwram@ == a.iwram@.update(
        iwram_index(address),
        value,
        ) && b.ewram == a.ewram
    &&& region_of(address) == 5 ==> b.ppu.palette@ == with_half(
        a.ppu.palette@,
        palette_index(address & !1u32),
        (value as u16) | ((value as u16) << 8u16),
        )
    &&& region_of(address) == 6 ==> b.ppu.vram@ == ({
        let index = ((vram_index(address) as usize) & !1usize) as int;
        let limit: int = if a.ppu.dispcnt & 7 >= 3 {
            0x14000
        } else {
            0x10000
        };
        if index < limit {
            with_half(
                a.ppu.vram@,
                index,
                (value as u16) | ((value as u16) << 8u16),
            )
        } else {
            a.ppu.vram@
        }
        })
    &&& region_of(address) == 7 ==> b.ppu.oam == a.ppu.oam
    &&& store8_done(&charged(a, address, 1, false), address, value, b)
}

/// A halfword write: work RAM, palette, VRAM and object memory take the halfword.
pub open spec fn write16_done(a: &Bus, address: u32, value: u16, b: &Bus) -> bool {
    &&& region_of(address) == 2 ==> b.ewram@ == with_half(
        a.ewram@,
        ewram_index(address & !1u32),
        value,
        ) && b.iwram == a.iwram
    &&& region_of(address) == 3 ==> b.iwram@ == with_half(
        a.iwram@,
        iwram_index(address & !1u32),
        value,
        ) && b.ewram == a.ewram
    &&& region_of(address) == 5 ==> b.ppu.palette@ == with_half(
        a.ppu.palette@,
        palette_index(address & !1u32),
        value,
        )
    &&& region_of(address) == 6 ==> b.ppu.vram@ == with_half(
        a.ppu.vram@,
        vram_index(address & !1u32),
        value,
        )
    &&& region_of(address) == 7 ==> b.ppu.oam@ == with_half(
        a.ppu.oam@,
        palette_index(address & !1u32),
        value,
        )
    &&& store16_done(&charged(a, address, 2, false), address, value, false, b)
}

/// A word write: work RAM takes the word, low half first.
pub open spec fn write32_done(a: &Bus, address: u32, value: u32, b: &Bus) -> bool {
    &&& region_of(address) == 2 ==> b.ewram@ == with_half(
        with_half(a.ewram@, ewram_index(address & !3u32), value as u16),
        ewram_index(address & !3u32) + 2,
        (value >> 16u32) as u16,
        ) && b.iwram == a.iwram
    &&& region_of(address) == 3 ==> b.iwram@ == with_half(
        with_half(a.iwram@, iwram_index(address & !3u32), value as u16),
        iwram_index(address & !3u32) + 2,
        (value >> 16u32) as u16,
        ) && b.ewram == a.ewram
    &&& store32_done(&charged(a, address, 4, false), address, value, false, b)
}

/// The EEPROM size a DMA on `channel` reveals, if any: on a cartridge with
/// EEPROM, a transfer to it of 9 or 73 halfwords addresses 6 bits (512
/// bytes), one of 17 or 81 addresses 14 bits (8K).
pub open spec fn eeprom_detected(b: &Bus, channel: int) -> Option<SaveKind> {
    let dma = b.dma[channel];
    if !(b.cart.kind == SaveKind::Eeprom512 || b.cart.kind == SaveKind::Eeprom8k) {
        None
    } else if !b.cart.eeprom_at(dma.internal_destination) {
        None
    } else if dma.internal_count == 9 || dma.internal_count == 73 {
        Some(SaveKind::Eeprom512)
    } else if dma.internal_count == 17 || dma.internal_count == 81 {
        Some(SaveKind::Eeprom8k)
    } else {
        None
    }
}

/// A write of `value` to the I/O register at `offset`: each register takes
/// the bits it keeps, writes to IF acknowledge, and the DMA registers may
/// start transfers.
pub open spec fn io_write_done(a: &Bus, offset: usize, value: u16, from_dma: bool, b: &Bus) -> bool {
    &&& !(0x0b0 <= offset <= 0x0de) || from_dma ==> b.access_cycles == a.access_cycles
    &&& b.next_sequential == a.next_sequential
    &&& !(0x0b0 <= offset <= 0x0de) ==> b.ewram == a.ewram && b.iwram
            == a.iwram && b.ppu.palette == a.ppu.palette && b.ppu.oam == a.ppu.oam && b.ppu.vram == a.ppu.vram
    &&& from_dma ==> b.ewram == a.ewram && b.iwram == a.iwram
            && b.ppu.palette == a.ppu.palette && b.ppu.oam == a.ppu.oam
    &&& value & 0x8000 == 0 ==> b.same_video_and_ram(a)
    &&& offset <= 0x05e ==> *b == (Bus { ppu: b.ppu, ..*a })
    &&& offset <= 0x05e ==> ppu_register_written(a.ppu, b.ppu, offset as int, value)
    &&& 0x060 <= offset <= 0x0a7 ==> *b == (Bus { apu: b.apu, ..*a })
            && crate::apu::sound_register_written(a.apu, b.apu, offset as int, value)
    &&& 0x100 <= offset <= 0x10e ==> *b == (Bus { timers: b.timers, ..*a })
    &&& 0x100 <= offset <= 0x10e && offset & 2 == 0 ==> b.timers.channel@
            == a.timers.channel@.update(
            (offset - 0x100) / 4,
            Timer { reload: value, ..a.timers.channel@[(offset - 0x100) / 4] },
        )
    &&& 0x100 <= offset <= 0x10e && offset & 2 != 0 ==> ({
            let before = a.timers.channel@[(offset - 0x100) / 4];
            let written = Timer { control: value & 0xc7, ..before };
            b.timers.channel@ == a.timers.channel@.update(
                (offset - 0x100) / 4,
                if !before.is_enabled() && written.is_enabled() {
                    Timer { counter: before.reload, residue: 0, ..written }
                } else {
                    written
                },
            )
        })
    &&& (0x120 <= offset <= 0x12e && offset != 0x128) || (0x134 <= offset <= 0x15e) ==> *b
            == (Bus { serial: b.serial, ..*a }) && b.serial@ == a.serial@.update(((offset - 0x120) / 2) % 16, value)
    &&& offset == 0x132 ==> *b == (Bus { keycnt: value, ..*a })
    &&& offset == 0x200 ==> *b == (Bus { interrupt_enable: value & 0x3fff, ..*a })
    &&& offset == 0x202 ==> *b == (Bus {
            interrupt_flags: a.interrupt_flags & !value,
            ..*a
        })
    &&& offset == 0x204 ==> *b == (Bus {
            waitcnt: value,
            wait16: b.wait16,
            wait32: b.wait32,
            seq16: b.seq16,
            seq32: b.seq32,
            ..*a
        })
    &&& offset == 0x208 ==> *b == (Bus { master_enable: value & 1 != 0, ..*a })
    &&& offset == 0x300 ==> *b == (Bus { postflg: value as u8, ..*a })
    &&& !(offset <= 0x0de || 0x100 <= offset <= 0x10e || 0x120 <= offset <= 0x15e || offset == 0x200
            || offset == 0x202 || offset == 0x204 || offset == 0x208 || offset == 0x300)
            ==> *b == *a
}

/// A byte written to the I/O register at `offset`: IF bits acknowledged,
/// a sound FIFO fed, HALTCNT requesting a halt, and any other register
/// taking the byte merged into the halfword it reads as.
pub open spec fn io8_write_done(a: &Bus, offset: usize, value: u8, b: &Bus) -> bool {
    if offset == 0x202 || offset == 0x203 {
        let shift: u16 = if offset == 0x203 {
            8
        } else {
            0
        };
        *b == (Bus { interrupt_flags: a.interrupt_flags & !((value as u16) << shift), ..*a })
    } else if 0x0a0 <= offset <= 0x0a7 {
        *b == (Bus { apu: b.apu, ..*a }) && crate::apu::fifo_pushed(
            &a.apu,
            ((offset - 0xa0) / 4) as usize,
            value as u32,
            &b.apu,
        )
    } else if offset == 0x301 {
        *b == (Bus { halt_requested: true, ..*a })
    } else {
        let aligned = offset & !1usize;
        let current: u16 = if aligned <= 0xffff {
            a.io_value(aligned)
        } else {
            0
        };
        let updated: u16 = if offset & 1 != 0 {
            (current & 0x00ff) | ((value as u16) << 8u16)
        } else {
            (current & 0xff00) | value as u16
        };
        io_write_done(a, aligned, updated, false, b)
    }
}

/// A byte store, cost aside: work RAM takes the byte, palette memory and
/// background VRAM the byte twice over, object memory nothing, an I/O
/// register as `io8_write_done` says, the cartridge as its chips do.
pub open spec fn store8_done(a: &Bus, address: u32, value: u8, b: &Bus) -> bool {
    &&& region_of(address) != 4 ==> b.access_cycles == a.access_cycles
    &&& b.next_sequential == a.next_sequential
    &&& region_of(address) == 2 ==> b.ewram@ == a.ewram@.update(
            ewram_index(address),
            value,
        ) && b.iwram == a.iwram
    &&& region_of(address) == 3 ==> b.iwram@ == a.iwram@.update(
            iwram_index(address),
            value,
        ) && b.ewram == a.ewram
    &&& region_of(address) == 5 ==> b.ppu.palette@ == with_half(
            a.ppu.palette@,
            palette_index(address & !1u32),
            (value as u16) | ((value as u16) << 8u16),
        )
    &&& region_of(address) == 6 ==> b.ppu.vram@ == ({
            let index = ((vram_index(address) as usize) & !1usize) as int;
            let limit: int = if a.ppu.dispcnt & 7 >= 3 {
                0x14000
            } else {
                0x10000
            };
            if index < limit {
                with_half(
                    a.ppu.vram@,
                    index,
                    (value as u16) | ((value as u16) << 8u16),
                )
            } else {
                a.ppu.vram@
            }
        })
    &&& region_of(address) == 7 ==> b.ppu.oam == a.ppu.oam
    &&& region_of(address) == 2 || region_of(address) == 3 ==> *b == (Bus {
            ewram: b.ewram,
            iwram: b.iwram,
            ..*a
        })
    &&& region_of(address) == 5 || region_of(address) == 6 || region_of(address) == 7
            ==> *b == (Bus { ppu: b.ppu, ..*a }) && b.ppu == (Ppu {
            palette: b.ppu.palette,
            vram: b.ppu.vram,
            ..a.ppu
        })
    &&& region_of(address) == 4 ==> io8_write_done(
            a,
            (address & 0xffff) as usize,
            value,
            b,
        )
    &&& 8 <= region_of(address) <= 0xd ==> *b == (Bus {
            cart: b.cart,
            ..*a
        }) && if a.cart.eeprom_at(address) {
            eeprom_written(&a.cart, value as u16, &b.cart)
        } else {
            b.cart == a.cart
        }
    &&& region_of(address) == 0xe || region_of(address) == 0xf ==> *b == (Bus {
            cart: b.cart,
            ..*a
        }) && save_written(&a.cart, address, value, &b.cart)
    &&& region_of(address) < 2 || region_of(address) > 0xf ==> *b == *a
}

/// A halfword store, cost aside: work RAM, palette, VRAM and object memory
/// take the halfword, an I/O register takes it as `io_write_done` says.
pub open spec fn store16_done(a: &Bus, raw_address: u32, value: u16, from_dma: bool, b: &Bus) -> bool {
    &&& region_of(raw_address) != 4 || from_dma ==> b.access_cycles == a.access_cycles
    &&& b.next_sequential == a.next_sequential
    &&& region_of(raw_address) == 2 ==> b.ewram@ == with_half(
            a.ewram@,
            ewram_index(raw_address & !1u32),
            value,
        ) && b.iwram == a.iwram
    &&& region_of(raw_address) == 3 ==> b.iwram@ == with_half(
            a.iwram@,
            iwram_index(raw_address & !1u32),
            value,
        ) && b.ewram == a.ewram
    &&& region_of(raw_address) == 5 ==> b.ppu.palette@ == with_half(
            a.ppu.palette@,
            palette_index(raw_address & !1u32),
            value,
        )
    &&& region_of(raw_address) == 6 ==> b.ppu.vram@ == with_half(
            a.ppu.vram@,
            vram_index(raw_address & !1u32),
            value,
        )
    &&& region_of(raw_address) == 7 ==> b.ppu.oam@ == with_half(
            a.ppu.oam@,
            palette_index(raw_address & !1u32),
            value,
        )
    &&& region_of(raw_address) == 4 && value & 0x8000 == 0 ==> b.same_video_and_ram(a)
    &&& region_of(raw_address) == 4 ==> io_write_done(
            a,
            (raw_address & 0xfffe) as usize,
            value,
            from_dma,
            &*b,
        )
    &&& region_of(raw_address) == 2 || region_of(raw_address) == 3 ==> *b == (Bus {
            ewram: b.ewram,
            iwram: b.iwram,
            ..*a
        })
    &&& 5 <= region_of(raw_address) <= 7 ==> *b == (Bus { ppu: b.ppu, ..*a }) && b.ppu == (Ppu {
            palette: b.ppu.palette,
            vram: b.ppu.vram,
            oam: b.ppu.oam,
            ..a.ppu
        })
    &&& 8 <= region_of(raw_address) <= 0xd ==> *b == (Bus { cart: b.cart, ..*a }) && if a.cart.eeprom_at(
            raw_address & !1u32,
        ) {
            eeprom_written(&a.cart, value, &b.cart)
        } else {
            rom_written(&a.cart, raw_address & !1u32, value, &b.cart)
        }
    &&& region_of(raw_address) == 0xe || region_of(raw_address) == 0xf ==> *b == (Bus {
            cart: b.cart,
            ..*a
        }) && save_written(
            &a.cart,
            raw_address,
            (value >> ((raw_address & 1) * 8) as u16) as u8,
            &b.cart,
        )
    &&& region_of(raw_address) < 2 || region_of(raw_address) > 0xf ==> *b == *a
}

/// A word store, cost aside: the sound FIFOs take the word whole, other I/O
/// registers and every other memory take it as two halfword stores, low
/// half first, and backup memory the one byte the address selects.
pub open spec fn store32_done(a: &Bus, raw_address: u32, value: u32, from_dma: bool, b: &Bus) -> bool {
    let address = raw_address & !3u32;
    let offset = (address & 0xfffc) as usize;
    if region_of(raw_address) == 4 && (offset == 0xa0 || offset == 0xa4) {
        *b == (Bus { apu: b.apu, ..*a }) && crate::apu::fifo_pushed(
            &a.apu,
            ((offset - 0xa0) / 4) as usize,
            value,
            &b.apu,
        )
    } else if region_of(raw_address) == 4 {
        exists|mid: Bus|
            io_write_done(a, offset, value as u16, from_dma, &mid) && #[trigger] io_write_done(
                &mid,
                (offset + 2) as usize,
                (value >> 16u32) as u16,
                from_dma,
                b,
            )
    } else if region_of(raw_address) == 0xe || region_of(raw_address) == 0xf {
        *b == (Bus { cart: b.cart, ..*a }) && save_written(
            &a.cart,
            raw_address,
            (value >> ((raw_address & 3) * 8)) as u8,
            &b.cart,
        )
    } else {
        exists|mid: Bus|
            store16_done(a, address, value as u16, from_dma, &mid) && #[trigger] store16_done(
                &mid,
                (address + 2) as u32,
                (value >> 16u32) as u16,
                from_dma,
                b,
            )
    }
}

/// What running DMA channel `channel` does, as far as it is stated: its
/// block moved, its addresses stepped, and the channel re-armed or
/// switched off.
pub open spec fn dma_run_done(a: &Bus, channel: usize, b: &Bus) -> bool {
    &&& b.next_sequential == a.next_sequential
    &&& {
            let dma = a.dma[channel as int];
            let after = b.dma[channel as int];
            &&& dma.is_repeating() && timing_of(dma.control) != DmaTiming::Immediate
                ==> after.internal_count == latched_count_spec(channel as int, after.count)
            &&& !(dma.is_repeating() && timing_of(dma.control) != DmaTiming::Immediate)
                ==> !after.is_enabled()
        }
}

/// Whether channel `channel` of `b` is enabled and started by `timing`.
pub open spec fn dma_starts(b: &Bus, channel: int, timing: DmaTiming) -> bool {
    b.dma[channel].is_enabled() && timing_of(b.dma[channel].control) == timing
}

/// The four channels tried in turn, through the bus states `chain`: each
/// one enabled and started by `timing` runs, the others leave the bus be.
pub open spec fn dmas_triggered(chain: Seq<Bus>, bus: &Bus, after: &Bus, timing: DmaTiming) -> bool {
    &&& chain.len() == 5
    &&& chain[0] == *bus
    &&& chain[4] == *after
    &&& forall|c: int|
        0 <= c < 4 ==> if dma_starts(&chain[c], c, timing) {
            dma_run_done(&chain[c], c as usize, &#[trigger] chain[c + 1])
        } else {
            chain[c + 1] == chain[c]
        }
}

/// The EEPROM size check a DMA start makes: a size it reveals that differs
/// from the current one replaces the backup memory with a blank one of the
/// new size; otherwise nothing changes.
pub open spec fn eeprom_checked(a: &Bus, channel: int, b: &Bus) -> bool {
    match eeprom_detected(a, channel) {
        Some(kind) if kind != a.cart.kind => {
            &&& *b == (Bus { cart: b.cart, ..*a })
            &&& b.cart == (Cart { kind, save: b.cart.save, ..a.cart })
            &&& b.cart.save@ == Seq::new(save_size(kind) as nat, |i: int| 0xffu8)
        },
        _ => *b == *a,
    }
}

/// The channel left marked inactive when it is not enabled.
pub open spec fn dma_settled(a: &Bus, channel: int, b: &Bus) -> bool {
    if !a.dma[channel].is_enabled() {
        &&& *b == (Bus { dma: b.dma, ..*a })
        &&& b.dma@ == a.dma@.update(channel, DmaChannel { active: false, ..a.dma[channel] })
    } else {
        *b == *a
    }
}

/// A write of DMA channel `channel`'s control register. Enabling the
/// channel latches its source and destination (masked to what the channel
/// can address) and its count, checks for an EEPROM transfer, and runs an
/// immediate channel at once unless a DMA made the write; a channel left
/// disabled is marked inactive.
pub open spec fn dma_control_written(a: &Bus, channel: int, value: u16, from_dma: bool, b: &Bus) -> bool {
    let dma = a.dma[channel];
    let written = DmaChannel { control: value, ..dma };
    let source_mask: u32 = if channel == 0 {
        0x07ff_fffe
    } else {
        0x0fff_fffe
    };
    let destination_mask: u32 = if channel == 3 {
        0x0fff_fffe
    } else {
        0x07ff_fffe
    };
    if !dma.is_enabled() && written.is_enabled() {
        let latched = DmaChannel {
            internal_source: dma.source & source_mask,
            internal_destination: dma.destination & destination_mask,
            internal_count: latched_count_spec(channel, dma.count),
            ..written
        };
        exists|armed: Bus, detected: Bus, ran: Bus|
            #![trigger eeprom_checked(&armed, channel, &detected), dma_settled(&ran, channel, b)]
            armed == (Bus { dma: armed.dma, ..*a }) && armed.dma@ == a.dma@.update(channel, latched)
                && eeprom_checked(&armed, channel, &detected) && (if timing_of(value)
                == DmaTiming::Immediate && !from_dma {
                dma_run_done(&detected, channel as usize, &ran)
            } else {
                ran == detected
            }) && dma_settled(&ran, channel, b)
    } else {
        exists|ran: Bus|
            #[trigger] dma_settled(&ran, channel, b) && ran == (Bus { dma: ran.dma, ..*a })
                && ran.dma@ == a.dma@.update(channel, written)
    }
}

/// A write of a DMA register: the halves of the source and destination
/// addresses, the count, or the control register.
pub open spec fn dma_register_written(a: &Bus, offset: int, value: u16, from_dma: bool, b: &Bus) -> bool {
    let channel = (offset - 0x0b0) / 12;
    let register = (offset - 0x0b0) % 12;
    let dma = a.dma[channel];
    if channel > 3 {
        *b == *a
    } else if register == 10 {
        dma_control_written(a, channel, value, from_dma, b)
    } else {
        let updated = if register == 0 {
            DmaChannel { source: (dma.source & 0xffff_0000) | value as u32, ..dma }
        } else if register == 2 {
            DmaChannel { source: (dma.source & 0x0000_ffff) | ((value as u32) << 16u32), ..dma }
        } else if register == 4 {
            DmaChannel { destination: (dma.destination & 0xffff_0000) | value as u32, ..dma }
        } else if register == 6 {
            DmaChannel {
                destination: (dma.destination & 0x0000_ffff) | ((value as u32) << 16u32),
                ..dma
            }
        } else if register == 8 {
            DmaChannel { count: value, ..dma }
        } else {
            dma
        };
        &&& *b == (Bus { dma: b.dma, ..*a })
        &&& b.dma@ == a.dma@.update(channel, updated)
    }
}

/// A byte stored to work RAM reads back as that byte.
pub proof fn law_ram_read_after_write(memory: Seq<u8>, address: u32, value: u8)
    requires
        memory.len() == 0x4_0000,
    ensures
        memory.update(ewram_index(address), value)[ewram_index(address)] == value,
        memory.update(iwram_index(address), value)[iwram_index(address)] == value,
{
    lemma_and_le_u32(address, 0x3_ffff);
    lemma_and_le_u32(address, 0x7fff);
}

/// A halfword stored little-endian reads back as that halfword.
pub proof fn law_half_read_after_write(memory: Seq<u8>, index: int, value: u16)
    requires
        0 <= index,
        index + 1 < memory.len(),
    ensures
        half_at(with_half(memory, index, value), index) == value,
{
    let low = value as u8;
    let high = (value >> 8u16) as u8;
    lemma_byte_pairs(0, value);
}

proof fn lemma_mirror_bits(address: u32)
    by (bit_vector)
    ensures
        address <= 0xffff_ffff - 0x4_0000 ==> address & 0x3_ffff == ((address + 0x4_0000) as u32)
            & 0x3_ffff,
        address <= 0xffff_ffff - 0x8000 ==> address & 0x7fff == ((address + 0x8000) as u32)
            & 0x7fff,
        address <= 0xffff_ffff - 0x2_0000 ==> address & 0x1_ffff == ((address + 0x2_0000) as u32)
            & 0x1_ffff,
        (address & 0x1_ffff) < 0x8000 ==> (address | 0x1_8000) & 0x1_ffff == (address & 0x1_ffff)
            + 0x1_8000 && (address | 0x1_0000) & 0x1_ffff == (address & 0x1_ffff) + 0x1_0000,
{
}

/// External work RAM repeats every 256K, internal every 32K, and VRAM
/// every 128K with its last 32K mirroring the 64K-96K block.
pub proof fn law_memory_mirrors(address: u32)
    ensures
        address <= 0xffff_ffff - 0x4_0000 ==> ewram_index(address) == ewram_index(
            (address + 0x4_0000) as u32,
        ),
        address <= 0xffff_ffff - 0x8000 ==> iwram_index(address) == iwram_index(
            (address + 0x8000) as u32,
        ),
        address <= 0xffff_ffff - 0x2_0000 ==> vram_index(address) == vram_index(
            (address + 0x2_0000) as u32,
        ),
        (address & 0x1_ffff) < 0x8000 ==> vram_index((address | 0x1_8000) as u32) == vram_index(
            (address | 0x1_0000) as u32,
        ),
{
    lemma_mirror_bits(address);
}


// ------------------------------------------------------------ save states

/// The bytes a DMA channel is saved as, followed by `rest`.
pub open spec fn dma_then(d: DmaChannel, rest: Seq<u8>) -> Seq<u8> {
    le32(d.source) + (le32(d.destination) + (le16(d.count) + (le16(d.control) + (le32(
        d.internal_source,
    ) + (le32(d.internal_destination) + (le32(d.internal_count) + (seq![bool_byte(d.active)]
        + rest)))))))
}

/// Channels `i` to 3.
pub open spec fn channels_then(dma: [DmaChannel; 4], i: int, rest: Seq<u8>) -> Seq<u8>
    decreases 4 - i,
{
    if i >= 4 || i < 0 {
        rest
    } else {
        dma_then(dma[i], channels_then(dma, i + 1, rest))
    }
}

/// Serial registers `i` to 15.
pub open spec fn serial_then(serial: [u16; 16], i: int, rest: Seq<u8>) -> Seq<u8>
    decreases 16 - i,
{
    if i >= 16 || i < 0 {
        rest
    } else {
        le16(serial[i]) + serial_then(serial, i + 1, rest)
    }
}

/// Keypad, interrupt and wait state registers, then the serial registers
/// and the rest of the bus.
pub open spec fn bus_registers_then(b: &Bus, rest: Seq<u8>) -> Seq<u8> {
    le16(b.keyinput) + (le16(b.keycnt) + (le16(b.interrupt_enable) + (le16(b.interrupt_flags) + (
    seq![bool_byte(b.master_enable)] + (le16(b.waitcnt) + (seq![b.postflg] + serial_then(
        b.serial,
        0,
        bus_tail_then(b, rest),
    )))))))
}

/// The bus's run state and latches.
pub open spec fn bus_tail_then(b: &Bus, rest: Seq<u8>) -> Seq<u8> {
    seq![bool_byte(b.use_hle_bios)] + (seq![bool_byte(b.halt_requested)] + (seq![
        bool_byte(b.frame_ready),
    ] + (le32(b.open_bus) + (le32(b.bios_latch) + (seq![bool_byte(b.executing_bios)] + (le32(
        b.next_sequential,
    ) + rest))))))
}

/// The bytes a bus is saved as, followed by `rest`: work RAM, every unit
/// and every register, but not the BIOS and the cartridge ROM, which come
/// from the machine loading the state.
pub open spec fn bus_then(b: &Bus, rest: Seq<u8>) -> Seq<u8> {
    block_bytes(b.ewram@) + (block_bytes(b.iwram@) + crate::ppu::ppu_then(
        &b.ppu,
        crate::apu::apu_then(&b.apu, bus_after_apu(b, rest)),
    ))
}

pub open spec fn bus_after_apu(b: &Bus, rest: Seq<u8>) -> Seq<u8> {
    crate::cart::cart_then(&b.cart, bus_after_cart(b, rest))
}

pub open spec fn bus_after_cart(b: &Bus, rest: Seq<u8>) -> Seq<u8> {
    crate::timer::timers_bytes(b.timers.channel@) + channels_then(
        b.dma,
        0,
        bus_registers_then(b, rest),
    )
}

impl Bus {
    /// Every field a state holds is the one `saved` has. Not held: the
    /// BIOS and the ROM, the per-access timing tables (worked out again
    /// from WAITCNT), the cycles of the access under way, whether backup
    /// memory awaits writing, the host's audio buffer and the layer buffers
    /// of the line being drawn.
    pub open spec fn restored(&self, saved: &Bus) -> bool {
        &&& self.ewram@ == saved.ewram@
        &&& self.iwram@ == saved.iwram@
        &&& self.ppu.restored(&saved.ppu)
        &&& self.apu.restored(&saved.apu)
        &&& self.cart.restored(&saved.cart)
        &&& self.timers == saved.timers
        &&& self.dma == saved.dma
        &&& self.keyinput == saved.keyinput
        &&& self.keycnt == saved.keycnt
        &&& self.interrupt_enable == saved.interrupt_enable
        &&& self.interrupt_flags == saved.interrupt_flags
        &&& self.master_enable == saved.master_enable
        &&& self.waitcnt == saved.waitcnt
        &&& self.postflg == saved.postflg
        &&& self.serial == saved.serial
        &&& self.use_hle_bios == saved.use_hle_bios
        &&& self.halt_requested == saved.halt_requested
        &&& self.frame_ready == saved.frame_ready
        &&& self.open_bus == saved.open_bus
        &&& self.bios_latch == saved.bios_latch
        &&& self.executing_bios == saved.executing_bios
        &&& self.next_sequential == saved.next_sequential
    }
}

#[verifier::spinoff_prover]
#[verifier::rlimit(50)]
fn save_dma(writer: &mut Writer, dma: &DmaChannel)
    ensures
        forall|rest: Seq<u8>|
            old(writer).data@ + #[trigger] dma_then(*dma, rest) == final(writer).data@ + rest,
{
    let ghost d = writer.data@;
    writer.u32(dma.source);
    writer.u32(dma.destination);
    writer.u16(dma.count);
    writer.u16(dma.control);
    writer.u32(dma.internal_source);
    writer.u32(dma.internal_destination);
    writer.u32(dma.internal_count);
    writer.bool(dma.active);
    assert forall|rest: Seq<u8>| d + #[trigger] dma_then(*dma, rest) == writer.data@ + rest by {}
}

#[verifier::spinoff_prover]
#[verifier::rlimit(50)]
fn load_dma(reader: &mut Reader) -> (result: Result<DmaChannel, StateError>)
    requires
        old(reader).wf(),
    ensures
        final(reader).wf(),
        forall|saved: DmaChannel, rest: Seq<u8>| #[trigger]
            old(reader).expects(dma_then(saved, rest)) ==> result == Ok::<DmaChannel, StateError>(
                saved,
            ) && final(reader).expects(rest),
{
    let ghost r0 = *reader;
    let source = reader.u32()?;
    let ghost r1 = *reader;
    let destination = reader.u32()?;
    let ghost r2 = *reader;
    let count = reader.u16()?;
    let ghost r3 = *reader;
    let control = reader.u16()?;
    let ghost r4 = *reader;
    let internal_source = reader.u32()?;
    let ghost r5 = *reader;
    let internal_destination = reader.u32()?;
    let ghost r6 = *reader;
    let internal_count = reader.u32()?;
    let ghost r7 = *reader;
    let active = reader.bool()?;
    let channel = DmaChannel {
        source,
        destination,
        count,
        control,
        internal_source,
        internal_destination,
        internal_count,
        active,
    };
    proof {
        assert forall|saved: DmaChannel, rest: Seq<u8>| #[trigger]
            r0.expects(dma_then(saved, rest)) implies channel == saved && reader.expects(rest) by {
            let s7 = seq![bool_byte(saved.active)] + rest;
            let s6 = le32(saved.internal_count) + s7;
            let s5 = le32(saved.internal_destination) + s6;
            let s4 = le32(saved.internal_source) + s5;
            let s3 = le16(saved.control) + s4;
            let s2 = le16(saved.count) + s3;
            let s1 = le32(saved.destination) + s2;
            assert(r0.expects(le32(saved.source) + s1));
            assert(r1.expects(s1));
            assert(r2.expects(s2));
            assert(r3.expects(s3));
            assert(r4.expects(s4));
            assert(r5.expects(s5));
            assert(r6.expects(s6));
            assert(r7.expects(s7));
        }
    }
    Ok(channel)
}

#[verifier::spinoff_prover]
#[verifier::rlimit(50)]
fn load_serial(reader: &mut Reader) -> (result: Result<[u16; 16], StateError>)
    requires
        old(reader).wf(),
    ensures
        final(reader).wf(),
        forall|saved: [u16; 16], rest: Seq<u8>| #[trigger]
            old(reader).expects(serial_then(saved, 0, rest)) ==> result == Ok::<
                [u16; 16],
                StateError,
            >(saved) && final(reader).expects(rest),
{
    let ghost r0 = *reader;
    let mut serial: [u16; 16] = [0; 16];
    let mut index: usize = 0;
    while index < 16
        invariant
            index <= 16,
            reader.wf(),
            r0 == *old(reader),
            forall|saved: [u16; 16], rest: Seq<u8>| #[trigger]
                r0.expects(serial_then(saved, 0, rest)) ==> {
                    &&& reader.expects(serial_then(saved, index as int, rest))
                    &&& forall|j: int| 0 <= j < index ==> #[trigger] serial[j] == saved[j]
                },
        decreases 16 - index,
    {
        let ghost r = *reader;
        let ghost before = serial;
        serial[index] = reader.u16()?;
        proof {
            assert forall|saved: [u16; 16], rest: Seq<u8>| #[trigger]
                r0.expects(serial_then(saved, 0, rest)) implies {
                &&& reader.expects(serial_then(saved, index + 1, rest))
                &&& forall|j: int| 0 <= j < index + 1 ==> #[trigger] serial[j] == saved[j]
            } by {
                assert(r.expects(serial_then(saved, index as int, rest)));
                assert(r.expects(le16(saved[index as int]) + serial_then(saved, index + 1, rest)));
                assert forall|j: int| 0 <= j < index + 1 implies #[trigger] serial[j] == saved[j] by {
                    if j < index {
                        assert(before[j] == saved[j]);
                    }
                }
            }
        }
        index = index + 1;
    }
    proof {
        assert forall|saved: [u16; 16], rest: Seq<u8>| #[trigger]
            r0.expects(serial_then(saved, 0, rest)) implies serial == saved by {
            assert(serial =~= saved);
        }
    }
    Ok(serial)
}

/// The keypad, interrupt, wait state and serial registers and the bus's
/// run state, as read from a state.
pub struct BusRegisters {
    pub keyinput: u16,
    pub keycnt: u16,
    pub interrupt_enable: u16,
    pub interrupt_flags: u16,
    pub master_enable: bool,
    pub waitcnt: u16,
    pub postflg: u8,
    pub serial: [u16; 16],
    pub use_hle_bios: bool,
    pub halt_requested: bool,
    pub frame_ready: bool,
    pub open_bus: u32,
    pub bios_latch: u32,
    pub executing_bios: bool,
    pub next_sequential: u32,
}

pub open spec fn registers_of(b: &Bus) -> BusRegisters {
    BusRegisters {
        keyinput: b.keyinput,
        keycnt: b.keycnt,
        interrupt_enable: b.interrupt_enable,
        interrupt_flags: b.interrupt_flags,
        master_enable: b.master_enable,
        waitcnt: b.waitcnt,
        postflg: b.postflg,
        serial: b.serial,
        use_hle_bios: b.use_hle_bios,
        halt_requested: b.halt_requested,
        frame_ready: b.frame_ready,
        open_bus: b.open_bus,
        bios_latch: b.bios_latch,
        executing_bios: b.executing_bios,
        next_sequential: b.next_sequential,
    }
}

#[verifier::spinoff_prover]
#[verifier::rlimit(50)]
fn read_bus_registers(reader: &mut Reader) -> (result: Result<BusRegisters, StateError>)
    requires
        old(reader).wf(),
    ensures
        final(reader).wf(),
        forall|saved: Bus, rest: Seq<u8>| #[trigger]
            old(reader).expects(bus_registers_then(&saved, rest)) ==> result == Ok::<
                BusRegisters,
                StateError,
            >(registers_of(&saved)) && final(reader).expects(rest),
{
    let ghost r0 = *reader;
    let keyinput = reader.u16()?;
    let ghost r1 = *reader;
    let keycnt = reader.u16()?;
    let ghost r2 = *reader;
    let interrupt_enable = reader.u16()?;
    let ghost r3 = *reader;
    let interrupt_flags = reader.u16()?;
    let ghost r4 = *reader;
    let master_enable = reader.bool()?;
    let ghost r5 = *reader;
    let waitcnt = reader.u16()?;
    let ghost r6 = *reader;
    let postflg = reader.u8()?;
    let ghost r7 = *reader;
    let serial = load_serial(reader);
    let ghost r8 = *reader;
    proof {
        assert forall|saved: Bus, rest: Seq<u8>| #[trigger]
            r0.expects(bus_registers_then(&saved, rest)) implies keyinput == saved.keyinput
            && keycnt == saved.keycnt && interrupt_enable == saved.interrupt_enable
            && interrupt_flags == saved.interrupt_flags && master_enable == saved.master_enable
            && waitcnt == saved.waitcnt && postflg == saved.postflg && serial == Ok::<
            [u16; 16],
            StateError,
        >(saved.serial) && r8.expects(bus_tail_then(&saved, rest)) by {
            let s7 = serial_then(saved.serial, 0, bus_tail_then(&saved, rest));
            let s6 = seq![saved.postflg] + s7;
            let s5 = le16(saved.waitcnt) + s6;
            let s4 = seq![bool_byte(saved.master_enable)] + s5;
            let s3 = le16(saved.interrupt_flags) + s4;
            let s2 = le16(saved.interrupt_enable) + s3;
            let s1 = le16(saved.keycnt) + s2;
            assert(r0.expects(le16(saved.keyinput) + s1));
            assert(r1.expects(s1));
            assert(r2.expects(s2));
            assert(r3.expects(s3));
            assert(r4.expects(s4));
            assert(r5.expects(s5));
            assert(r6.expects(s6));
            assert(r7.expects(s7));
        }
    }
    let serial = serial?;
    let use_hle_bios = reader.bool()?;
    let ghost r9 = *reader;
    let halt_requested = reader.bool()?;
    let ghost r10 = *reader;
    let frame_ready = reader.bool()?;
    let ghost r11 = *reader;
    let open_bus = reader.u32()?;
    let ghost r12 = *reader;
    let bios_latch = reader.u32()?;
    let ghost r13 = *reader;
    let executing_bios = reader.bool()?;
    let ghost r14 = *reader;
    let next_sequential = reader.u32()?;
    let registers = BusRegisters {
        keyinput,
        keycnt,
        interrupt_enable,
        interrupt_flags,
        master_enable,
        waitcnt,
        postflg,
        serial,
        use_hle_bios,
        halt_requested,
        frame_ready,
        open_bus,
        bios_latch,
        executing_bios,
        next_sequential,
    };
    proof {
        assert forall|saved: Bus, rest: Seq<u8>| #[trigger]
            r0.expects(bus_registers_then(&saved, rest)) implies registers == registers_of(&saved)
            && reader.expects(rest) by {
            let s14 = le32(saved.next_sequential) + rest;
            let s13 = seq![bool_byte(saved.executing_bios)] + s14;
            let s12 = le32(saved.bios_latch) + s13;
            let s11 = le32(saved.open_bus) + s12;
            let s10 = seq![bool_byte(saved.frame_ready)] + s11;
            let s9 = seq![bool_byte(saved.halt_requested)] + s10;
            assert(r8.expects(seq![bool_byte(saved.use_hle_bios)] + s9));
            assert(r9.expects(s9));
            assert(r10.expects(s10));
            assert(r11.expects(s11));
            assert(r12.expects(s12));
            assert(r13.expects(s13));
            assert(r14.expects(s14));
        }
    }
    Ok(registers)
}

impl Snapshot for Bus {
    /// Saves work RAM, every unit and every register. The BIOS and the
    /// cartridge ROM are not saved: they come from the machine loading it.
    #[verifier::spinoff_prover]
    #[verifier::rlimit(100)]
    fn save(&self, writer: &mut Writer)
        ensures
            forall|rest: Seq<u8>|
                old(writer).data@ + #[trigger] bus_then(self, rest) == final(writer).data@ + rest,
    {
        let ghost d0 = writer.data@;
        writer.bytes(self.ewram.as_slice());
        writer.bytes(self.iwram.as_slice());
        let ghost d1 = writer.data@;
        self.ppu.save(writer);
        let ghost d2 = writer.data@;
        self.apu.save(writer);
        let ghost d3 = writer.data@;
        self.cart.save(writer);
        let ghost d4 = writer.data@;
        self.timers.save(writer);
        let ghost d5 = writer.data@;
        let mut channel: usize = 0;
        while channel < 4
            invariant
                channel <= 4,
                forall|rest: Seq<u8>|
                    d5 + #[trigger] channels_then(self.dma, 0, rest) == writer.data@ + channels_then(
                        self.dma,
                        channel as int,
                        rest,
                    ),
            decreases 4 - channel,
        {
            let ghost before = writer.data@;
            save_dma(writer, &self.dma[channel]);
            assert forall|rest: Seq<u8>|
                d5 + #[trigger] channels_then(self.dma, 0, rest) == writer.data@ + channels_then(
                    self.dma,
                    channel + 1,
                    rest,
                ) by {
                assert(d5 + channels_then(self.dma, 0, rest) == before + channels_then(
                    self.dma,
                    channel as int,
                    rest,
                ));
                assert(channels_then(self.dma, channel as int, rest) == dma_then(
                    self.dma[channel as int],
                    channels_then(self.dma, channel + 1, rest),
                ));
            }
            channel = channel + 1;
        }
        let ghost d6 = writer.data@;
        writer.u16(self.keyinput);
        writer.u16(self.keycnt);
        writer.u16(self.interrupt_enable);
        writer.u16(self.interrupt_flags);
        writer.bool(self.master_enable);
        writer.u16(self.waitcnt);
        writer.u8(self.postflg);
        let ghost d7 = writer.data@;
        let mut index: usize = 0;
        while index < 16
            invariant
                index <= 16,
                forall|rest: Seq<u8>|
                    d7 + #[trigger] serial_then(self.serial, 0, rest) == writer.data@ + serial_then(
                        self.serial,
                        index as int,
                        rest,
                    ),
            decreases 16 - index,
        {
            let ghost before = writer.data@;
            writer.u16(self.serial[index]);
            assert forall|rest: Seq<u8>|
                d7 + #[trigger] serial_then(self.serial, 0, rest) == writer.data@ + serial_then(
                    self.serial,
                    index + 1,
                    rest,
                ) by {
                assert(d7 + serial_then(self.serial, 0, rest) == before + serial_then(
                    self.serial,
                    index as int,
                    rest,
                ));
            }
            index = index + 1;
        }
        let ghost d8 = writer.data@;
        writer.bool(self.use_hle_bios);
        writer.bool(self.halt_requested);
        writer.bool(self.frame_ready);
        writer.u32(self.open_bus);
        writer.u32(self.bios_latch);
        writer.bool(self.executing_bios);
        writer.u32(self.next_sequential);
        assert forall|rest: Seq<u8>|
            d0 + #[trigger] bus_then(self, rest) == writer.data@ + rest by {
            let tail = bus_tail_then(self, rest);
            assert(d8 + tail == writer.data@ + rest);
            assert(d7 + serial_then(self.serial, 0, tail) == d8 + serial_then(self.serial, 16, tail));
            assert(d6 + bus_registers_then(self, rest) == d7 + serial_then(self.serial, 0, tail));
            let registers = bus_registers_then(self, rest);
            assert(d5 + channels_then(self.dma, 0, registers) == d6 + channels_then(self.dma, 4, registers));
            assert(d4 + (crate::timer::timers_bytes(self.timers.channel@) + channels_then(self.dma, 0, registers)) =~= d5 + channels_then(self.dma, 0, registers));
            assert(d3 + bus_after_apu(self, rest) == d4 + bus_after_cart(self, rest));
            assert(d2 + crate::apu::apu_then(&self.apu, bus_after_apu(self, rest)) == d3 + bus_after_apu(self, rest));
            assert(d1 + crate::ppu::ppu_then(&self.ppu, crate::apu::apu_then(&self.apu, bus_after_apu(self, rest))) == d2 + crate::apu::apu_then(&self.apu, bus_after_apu(self, rest)));
        }
    }

    /// Loads into a well-formed bus and leaves it well-formed; the access
    /// times are worked out again from the loaded WAITCNT.
    fn load(&mut self, reader: &mut Reader) -> (result: Result<(), StateError>)
        ensures
            old(self).wf() ==> final(self).wf(),
            final(self).bios == old(self).bios,
            final(self).cart.rom == old(self).cart.rom,
            forall|saved: Bus, rest: Seq<u8>| #[trigger]
                old(reader).expects(bus_then(&saved, rest)) && saved.wf() && saved.cart.storable()
                    && old(self).wf() ==> result is Ok && final(self).restored(&saved)
                    && final(reader).expects(rest),
    {
        let ghost r0 = *reader;
        let ghost start = *self;
        let units = self.load_units(reader);
        let ghost r1 = *reader;
        let ghost middle = *self;
        proof {
            assert forall|saved: Bus, rest: Seq<u8>| #[trigger]
                r0.expects(bus_then(&saved, rest)) && saved.wf() && saved.cart.storable() && start.wf()
                implies units is Ok && r1.expects(
                channels_then(saved.dma, 0, bus_registers_then(&saved, rest)),
            ) by {}
        }
        units?;
        let registers = self.load_registers(reader);
        proof {
            assert forall|saved: Bus, rest: Seq<u8>| #[trigger]
                r0.expects(bus_then(&saved, rest)) && saved.wf() && saved.cart.storable() && start.wf()
                implies registers is Ok && self.restored(&saved) && reader.expects(rest) by {
                assert(r1.expects(channels_then(saved.dma, 0, bus_registers_then(&saved, rest))));
                assert(middle.ppu.restored(&saved.ppu));
            }
        }
        registers
    }
}

impl Bus {
    /// Work RAM and the units: picture, sound, cartridge and timers.
    #[verifier::spinoff_prover]
    #[verifier::rlimit(100)]
    fn load_units(&mut self, reader: &mut Reader) -> (result: Result<(), StateError>)
        requires
            old(reader).wf(),
        ensures
            final(reader).wf(),
            old(self).wf() ==> final(self).wf(),
            *final(self) == (Bus {
                ewram: final(self).ewram,
                iwram: final(self).iwram,
                ppu: final(self).ppu,
                apu: final(self).apu,
                cart: final(self).cart,
                timers: final(self).timers,
                ..*old(self)
            }),
            final(self).cart.rom == old(self).cart.rom,
            forall|saved: Bus, rest: Seq<u8>| #[trigger]
                old(reader).expects(bus_then(&saved, rest)) && saved.wf() && saved.cart.storable()
                    && old(self).wf() ==> {
                    &&& result is Ok
                    &&& final(self).ewram@ == saved.ewram@ && final(self).iwram@ == saved.iwram@
                    &&& final(self).ppu.restored(&saved.ppu)
                    &&& final(self).apu.restored(&saved.apu)
                    &&& final(self).cart.restored(&saved.cart)
                    &&& final(self).timers == saved.timers
                    &&& final(reader).expects(
                        channels_then(saved.dma, 0, bus_registers_then(&saved, rest)),
                    )
                },
    {
        let ghost r0 = *reader;
        let ghost start = *self;
        let ewram = reader.into_bytes(self.ewram.as_mut_slice());
        let ghost r1 = *reader;
        proof {
            assert forall|saved: Bus, rest: Seq<u8>| #[trigger]
                r0.expects(bus_then(&saved, rest)) && saved.wf() && saved.cart.storable() && start.wf()
                implies ewram is Ok && self.ewram@ == saved.ewram@ && r1.expects(
                block_bytes(saved.iwram@) + crate::ppu::ppu_then(
                    &saved.ppu,
                    crate::apu::apu_then(&saved.apu, bus_after_apu(&saved, rest)),
                ),
            ) by {
                assert(r0.expects(bus_then(&saved, rest)));
            }
        }
        ewram?;
        let iwram = reader.into_bytes(self.iwram.as_mut_slice());
        let ghost r2 = *reader;
        proof {
            assert forall|saved: Bus, rest: Seq<u8>| #[trigger]
                r0.expects(bus_then(&saved, rest)) && saved.wf() && saved.cart.storable() && start.wf()
                implies iwram is Ok && self.iwram@ == saved.iwram@ && r2.expects(
                crate::ppu::ppu_then(
                    &saved.ppu,
                    crate::apu::apu_then(&saved.apu, bus_after_apu(&saved, rest)),
                ),
            ) by {
                assert(r1.expects(
                    block_bytes(saved.iwram@) + crate::ppu::ppu_then(
                        &saved.ppu,
                        crate::apu::apu_then(&saved.apu, bus_after_apu(&saved, rest)),
                    ),
                ));
            }
        }
        iwram?;
        let ghost memories = *self;
        let ppu = self.ppu.load(reader);
        let ghost r3 = *reader;
        proof {
            assert forall|saved: Bus, rest: Seq<u8>| #[trigger]
                r0.expects(bus_then(&saved, rest)) && saved.wf() && saved.cart.storable() && start.wf()
                implies ppu is Ok && self.ppu.restored(&saved.ppu) && r3.expects(
                crate::apu::apu_then(&saved.apu, bus_after_apu(&saved, rest)),
            ) by {
                assert(r2.expects(
                    crate::ppu::ppu_then(
                        &saved.ppu,
                        crate::apu::apu_then(&saved.apu, bus_after_apu(&saved, rest)),
                    ),
                ));
                assert(memories.ppu.wf());
            }
        }
        ppu?;
        let ghost after_ppu = *self;
        let apu = self.apu.load(reader);
        let ghost r4 = *reader;
        proof {
            assert forall|saved: Bus, rest: Seq<u8>| #[trigger]
                r0.expects(bus_then(&saved, rest)) && saved.wf() && saved.cart.storable() && start.wf()
                implies apu is Ok && self.apu.restored(&saved.apu) && r4.expects(
                bus_after_apu(&saved, rest),
            ) by {
                assert(r3.expects(crate::apu::apu_then(&saved.apu, bus_after_apu(&saved, rest))));
            }
        }
        apu?;
        let ghost after_apu = *self;
        let cart = self.cart.load(reader);
        let ghost r5 = *reader;
        proof {
            assert forall|saved: Bus, rest: Seq<u8>| #[trigger]
                r0.expects(bus_then(&saved, rest)) && saved.wf() && saved.cart.storable() && start.wf()
                implies cart is Ok && self.cart.restored(&saved.cart) && r5.expects(
                bus_after_cart(&saved, rest),
            ) by {
                assert(r4.expects(bus_after_apu(&saved, rest)));
                assert(after_apu.cart.wf());
            }
        }
        cart?;
        let timers = self.timers.load(reader);
        let ghost r6 = *reader;
        proof {
            assert forall|saved: Bus, rest: Seq<u8>| #[trigger]
                r0.expects(bus_then(&saved, rest)) && saved.wf() && saved.cart.storable() && start.wf()
                implies timers is Ok && self.timers.channel == saved.timers.channel && r6.expects(
                channels_then(saved.dma, 0, bus_registers_then(&saved, rest)),
            ) by {
                assert(r5.expects(bus_after_cart(&saved, rest)));
            }
        }
        timers?;
        proof {
            assert forall|saved: Bus, rest: Seq<u8>| #[trigger]
                r0.expects(bus_then(&saved, rest)) && saved.wf() && saved.cart.storable() && start.wf()
                implies self.timers == saved.timers by {
                assert(self.timers.channel == saved.timers.channel);
            }
        }
        Ok(())
    }

    /// The DMA channels, the registers and the run state; the access times
    /// are worked out again from the loaded WAITCNT.
    #[verifier::spinoff_prover]
    #[verifier::rlimit(100)]
    fn load_registers(&mut self, reader: &mut Reader) -> (result: Result<(), StateError>)
        requires
            old(reader).wf(),
        ensures
            final(reader).wf(),
            old(self).wf() ==> final(self).wf(),
            final(self).bios == old(self).bios && final(self).ewram == old(self).ewram,
            final(self).iwram == old(self).iwram && final(self).ppu == old(self).ppu,
            final(self).apu == old(self).apu && final(self).cart == old(self).cart,
            final(self).timers == old(self).timers,
            forall|saved: Bus, rest: Seq<u8>| #[trigger]
                old(reader).expects(channels_then(saved.dma, 0, bus_registers_then(&saved, rest)))
                    ==> {
                    &&& result is Ok
                    &&& final(self).dma == saved.dma
                    &&& registers_of(&*final(self)) == registers_of(&saved)
                    &&& final(reader).expects(rest)
                },
    {
        let ghost r7 = *reader;
        let first = load_dma(reader);
        let ghost r8 = *reader;
        proof {
            assert forall|saved: Bus, rest: Seq<u8>| #[trigger]
                r7.expects(channels_then(saved.dma, 0, bus_registers_then(&saved, rest)))
                implies first == Ok::<DmaChannel, StateError>(saved.dma[0]) && r8.expects(
                channels_then(saved.dma, 1, bus_registers_then(&saved, rest)),
            ) by {
                let registers = bus_registers_then(&saved, rest);
                assert(r7.expects(dma_then(saved.dma[0], channels_then(saved.dma, 1, registers))));
            }
        }
        let first = first?;
        let second = load_dma(reader);
        let ghost r9 = *reader;
        proof {
            assert forall|saved: Bus, rest: Seq<u8>| #[trigger]
                r7.expects(channels_then(saved.dma, 0, bus_registers_then(&saved, rest)))
                implies second == Ok::<DmaChannel, StateError>(saved.dma[1]) && r9.expects(
                channels_then(saved.dma, 2, bus_registers_then(&saved, rest)),
            ) by {
                let registers = bus_registers_then(&saved, rest);
                assert(r7.expects(dma_then(saved.dma[0], channels_then(saved.dma, 1, registers))));
                assert(r8.expects(dma_then(saved.dma[1], channels_then(saved.dma, 2, registers))));
            }
        }
        let second = second?;
        let third = load_dma(reader);
        let ghost r10 = *reader;
        proof {
            assert forall|saved: Bus, rest: Seq<u8>| #[trigger]
                r7.expects(channels_then(saved.dma, 0, bus_registers_then(&saved, rest)))
                implies third == Ok::<DmaChannel, StateError>(saved.dma[2]) && r10.expects(
                channels_then(saved.dma, 3, bus_registers_then(&saved, rest)),
            ) by {
                let registers = bus_registers_then(&saved, rest);
                assert(r7.expects(dma_then(saved.dma[0], channels_then(saved.dma, 1, registers))));
                assert(r8.expects(dma_then(saved.dma[1], channels_then(saved.dma, 2, registers))));
                assert(r9.expects(dma_then(saved.dma[2], channels_then(saved.dma, 3, registers))));
            }
        }
        let third = third?;
        let fourth = load_dma(reader);
        let ghost r11 = *reader;
        proof {
            assert forall|saved: Bus, rest: Seq<u8>| #[trigger]
                r7.expects(channels_then(saved.dma, 0, bus_registers_then(&saved, rest)))
                implies fourth == Ok::<DmaChannel, StateError>(saved.dma[3]) && r11.expects(
                channels_then(saved.dma, 4, bus_registers_then(&saved, rest)),
            ) by {
                let registers = bus_registers_then(&saved, rest);
                assert(r7.expects(dma_then(saved.dma[0], channels_then(saved.dma, 1, registers))));
                assert(r8.expects(dma_then(saved.dma[1], channels_then(saved.dma, 2, registers))));
                assert(r9.expects(dma_then(saved.dma[2], channels_then(saved.dma, 3, registers))));
                assert(r10.expects(dma_then(saved.dma[3], channels_then(saved.dma, 4, registers))));
            }
        }
        let fourth = fourth?;
        self.dma = [first, second, third, fourth];
        proof {
            assert forall|saved: Bus, rest: Seq<u8>| #[trigger]
                r7.expects(channels_then(saved.dma, 0, bus_registers_then(&saved, rest)))
                implies self.dma == saved.dma && r11.expects(bus_registers_then(&saved, rest)) by {
                let registers = bus_registers_then(&saved, rest);
                assert(r7.expects(channels_then(saved.dma, 0, registers)));
                assert(r7.expects(dma_then(saved.dma[0], channels_then(saved.dma, 1, registers))));
                assert(r8.expects(dma_then(saved.dma[1], channels_then(saved.dma, 2, registers))));
                assert(r9.expects(dma_then(saved.dma[2], channels_then(saved.dma, 3, registers))));
                assert(r10.expects(dma_then(saved.dma[3], channels_then(saved.dma, 4, registers))));
                assert(self.dma =~= saved.dma);
            }
        }
        let registers = read_bus_registers(reader);
        proof {
            assert forall|saved: Bus, rest: Seq<u8>| #[trigger]
                r7.expects(channels_then(saved.dma, 0, bus_registers_then(&saved, rest)))
                implies registers == Ok::<BusRegisters, StateError>(registers_of(&saved))
                && reader.expects(rest) by {
                assert(r11.expects(bus_registers_then(&saved, rest)));
            }
        }
        let registers = registers?;
        self.keyinput = registers.keyinput;
        self.keycnt = registers.keycnt;
        self.interrupt_enable = registers.interrupt_enable;
        self.interrupt_flags = registers.interrupt_flags;
        self.master_enable = registers.master_enable;
        self.waitcnt = registers.waitcnt;
        self.postflg = registers.postflg;
        self.serial = registers.serial;
        self.use_hle_bios = registers.use_hle_bios;
        self.halt_requested = registers.halt_requested;
        self.frame_ready = registers.frame_ready;
        self.open_bus = registers.open_bus;
        self.bios_latch = registers.bios_latch;
        self.executing_bios = registers.executing_bios;
        self.next_sequential = registers.next_sequential;
        self.update_waitstates();
        Ok(())
    }
}

} // verus!
