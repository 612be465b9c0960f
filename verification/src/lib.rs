//! fear-gba: a Game Boy Advance emulator.

pub mod apu;
pub mod bios;
pub mod bits;
pub mod bus;
pub mod cart;
pub mod cpu;
pub mod dma;
pub mod png;
pub mod script;
pub mod ppu;
pub mod state;
pub mod timer;

pub use bus::Bus;
pub use cpu::Cpu;
pub use ppu::{HEIGHT, WIDTH};

use crate::bus::bus_then;
use crate::cpu::{cpu_bytes, cpu_decoded};
use crate::png::crc32_of;
use crate::state::{
    header_bytes, read_header, write_header, Reader, Snapshot, StateError, Writer, MAGIC, VERSION,
};
use vstd::prelude::*;

verus! {

/// 4 cycles per dot, 308 dots per line, 228 lines.
pub const CYCLES_PER_FRAME: u32 = 280_896;

pub const KEY_A: u16 = 0x001;

pub const KEY_B: u16 = 0x002;

pub const KEY_SELECT: u16 = 0x004;

pub const KEY_START: u16 = 0x008;

pub const KEY_RIGHT: u16 = 0x010;

pub const KEY_LEFT: u16 = 0x020;

pub const KEY_UP: u16 = 0x040;

pub const KEY_DOWN: u16 = 0x080;

pub const KEY_R: u16 = 0x100;

pub const KEY_L: u16 = 0x200;

/// A frame that never finishes (the display switched off) gives up after
/// this many cycles.
pub const FRAME_GIVE_UP: u64 = 1_123_584;

pub struct Gba {
    pub cpu: Cpu,
    pub bus: Bus,
}

/// The BIOS image a system runs: the one supplied, cut or padded to 16K, or
/// the built-in one.
pub open spec fn bios_image(bios: Option<Vec<u8>>) -> Seq<u8> {
    match bios {
        Some(image) => if image@.len() >= 0x4000 {
            image@.subrange(0, 0x4000)
        } else {
            image@ + Seq::new((0x4000 - image@.len()) as nat, |i: int| 0u8)
        },
        None => Seq::new(0x4000, |i: int| crate::bios::hle_byte(i)),
    }
}

/// The save state of a machine: the header naming its game, the
/// processor, then the rest of the machine.
pub open spec fn state_bytes(gba: &Gba) -> Seq<u8> {
    header_bytes(crc32_of(gba.bus.cart.rom@)) + (cpu_bytes(&gba.cpu) + bus_then(
        &gba.bus,
        Seq::empty(),
    ))
}

/// One round of the machine: the processor steps, taking `cycles`, and the
/// rest of the machine runs for as long.
pub open spec fn advanced(g: Gba, cycles: u32, h: Gba) -> bool {
    exists|mid: Bus|
        #[trigger] crate::cpu::stepped(&g.cpu, &g.bus, &h.cpu, &mid, cycles) && crate::bus::ran(
            mid,
            cycles,
            h.bus,
        )
}

/// Machines `trace` passed through in rounds taking `counts` cycles each.
pub open spec fn rounds(trace: Seq<Gba>, counts: Seq<u32>) -> bool {
    &&& trace.len() == counts.len() + 1
    &&& forall|i: int| 0 <= i < counts.len() ==> #[trigger] advanced(trace[i], counts[i], trace[i + 1])
}

/// The cycles spent in the first `k` rounds, counted up to `limit` and no
/// further.
pub open spec fn spent_after(counts: Seq<u32>, k: int, limit: int) -> int
    decreases k,
{
    if k <= 0 {
        0
    } else {
        let total = spent_after(counts, k - 1, limit) + counts[k - 1];
        if total > limit {
            limit
        } else {
            total
        }
    }
}

/// Extending the rounds leaves the count over the earlier ones as it was.
proof fn lemma_spent_prefix(short: Seq<u32>, long: Seq<u32>, k: int, limit: int)
    requires
        0 <= k <= short.len() <= long.len(),
        short == long.subrange(0, short.len() as int),
    ensures
        spent_after(short, k, limit) == spent_after(long, k, limit),
    decreases k,
{
    if k > 0 {
        lemma_spent_prefix(short, long, k - 1, limit);
        assert(short[k - 1] == long[k - 1]);
    }
}

impl Gba {
    pub open spec fn wf(&self) -> bool {
        self.bus.wf()
    }

    /// Every field a save state holds is the one `saved` has.
    pub open spec fn restored(&self, saved: &Gba) -> bool {
        self.cpu == saved.cpu && self.bus.restored(&saved.bus)
    }

    /// Builds a system. Without a BIOS image the high level BIOS is used and
    /// the CPU starts directly at the cartridge entry point.
    pub fn new(rom: Vec<u8>, bios: Option<Vec<u8>>) -> (gba: Self)
        ensures
            gba.wf(),
            gba.bus.cart.fresh(rom@),
            gba.bus.bios@ == bios_image(bios),
            gba.bus.ppu.dispcnt == 0x0080,
            gba.bus.ppu.vcount == 0,
            gba.bus.ppu.vram@ == Seq::new(0x18000, |i: int| 0u8),
            gba.bus.ppu.oam@ == Seq::new(0x400, |i: int| 0u8),
            gba.bus.ppu.palette@ == Seq::new(0x400, |i: int| 0u8),
            !gba.bus.frame_ready,
            gba.bus.use_hle_bios == bios is None,
            bios is None ==> gba.cpu.pc_spec() == 0x0800_0000 && gba.cpu.mode == cpu::MODE_SYS
                && gba.cpu.r[13] == 0x0300_7f00 && gba.bus.postflg == 1,
            bios is Some ==> gba.cpu.pc_spec() == 0 && gba.cpu.mode == cpu::MODE_SVC,
            !gba.cpu.halted,
    {
        let real_bios = bios.is_some();
        let ghost requested = bios;
        let image = match bios {
            Some(image) => {
                let mut image = image;
                let ghost supplied = image@;
                image.resize(0x4000, 0);
                proof {
                    if supplied.len() < 0x4000 {
                        assert forall|i: int| supplied.len() <= i < 0x4000 implies image@[i] == 0u8 by {
                            assert(cloned::<u8>(0u8, image@[i]));
                        }
                    }
                    assert(image@ =~= bios_image(requested));
                }
                image
            },
            None => {
                let image = crate::bios::hle_image();
                assert(image@ =~= bios_image(None));
                image
            },
        };
        let mut bus = Bus::new(rom, image);
        bus.use_hle_bios = !real_bios;
        let mut cpu = Cpu::new();
        if real_bios {
            cpu.reset();
        } else {
            cpu.skip_bios();
            bus.postflg = 1;
        }
        Gba { cpu, bus }
    }

    /// Runs until the PPU finishes a frame, or gives up after four frames'
    /// worth of cycles when the display never reaches the end of one.
    pub fn run_frame(&mut self)
        requires
            old(self).wf(),
        ensures
            final(self).wf(),
            exists|trace: Seq<Gba>, counts: Seq<u32>|
                #[trigger] rounds(trace, counts) && trace[0] == (Gba {
                    bus: Bus { frame_ready: false, ..old(self).bus },
                    ..*old(self)
                }) && trace.last() == *final(self) && (forall|i: int|
                    0 <= i < counts.len() ==> !(#[trigger] trace[i]).bus.frame_ready
                        && spent_after(counts, i, FRAME_GIVE_UP + 1) <= FRAME_GIVE_UP) && (
                final(self).bus.frame_ready || spent_after(
                    counts,
                    counts.len() as int,
                    FRAME_GIVE_UP + 1,
                ) > FRAME_GIVE_UP),
    {
        self.bus.frame_ready = false;
        let ghost mut trace: Seq<Gba> = seq![*self];
        let ghost mut counts: Seq<u32> = Seq::empty();
        let mut spent: u64 = 0;
        while !self.bus.frame_ready && spent <= FRAME_GIVE_UP
            invariant
                self.bus.wf(),
                spent <= FRAME_GIVE_UP + 1,
                rounds(trace, counts),
                trace[0] == (Gba { bus: Bus { frame_ready: false, ..old(self).bus }, ..*old(self) }),
                trace.last() == *self,
                spent == spent_after(counts, counts.len() as int, FRAME_GIVE_UP + 1),
                forall|i: int|
                    0 <= i < counts.len() ==> !(#[trigger] trace[i]).bus.frame_ready
                        && spent_after(counts, i, FRAME_GIVE_UP + 1) <= FRAME_GIVE_UP,
            decreases FRAME_GIVE_UP + 1 - spent,
        {
            let ghost before = *self;
            let cycles = self.cpu.step(&mut self.bus);
            let ghost mid = self.bus;
            self.bus.run_cycles(cycles);
            proof {
                assert(advanced(before, cycles, *self));
                let old_trace = trace;
                let old_counts = counts;
                trace = trace.push(*self);
                counts = counts.push(cycles);
                assert(old_counts =~= counts.subrange(0, old_counts.len() as int));
                assert forall|i: int| 0 <= i < counts.len() implies #[trigger] advanced(
                    trace[i],
                    counts[i],
                    trace[i + 1],
                ) by {
                    if i < old_counts.len() {
                        assert(trace[i] == old_trace[i] && trace[i + 1] == old_trace[i + 1]);
                    }
                }
                assert(spent_after(counts, old_counts.len() as int, FRAME_GIVE_UP + 1)
                    == spent_after(old_counts, old_counts.len() as int, FRAME_GIVE_UP + 1)) by {
                    lemma_spent_prefix(old_counts, counts, old_counts.len() as int, FRAME_GIVE_UP + 1);
                }
                assert forall|i: int| 0 <= i < counts.len() implies !(#[trigger] trace[i]).bus.frame_ready
                    && spent_after(counts, i, FRAME_GIVE_UP + 1) <= FRAME_GIVE_UP by {
                    lemma_spent_prefix(old_counts, counts, i, FRAME_GIVE_UP + 1);
                    if i < old_counts.len() {
                        assert(trace[i] == old_trace[i]);
                    }
                }
            }
            spent = if spent + cycles as u64 > FRAME_GIVE_UP {
                FRAME_GIVE_UP + 1
            } else {
                spent + cycles as u64
            };
        }
    }

    /// Runs at least `cycles` cycles, a whole instruction at a time.
    pub fn run_cycles(&mut self, cycles: u32)
        requires
            old(self).wf(),
        ensures
            final(self).wf(),
            exists|trace: Seq<Gba>, counts: Seq<u32>|
                #[trigger] rounds(trace, counts) && trace[0] == *old(self) && trace.last()
                    == *final(self) && (forall|i: int|
                    0 <= i < counts.len() ==> #[trigger] spent_after(counts, i, cycles as int)
                        < cycles) && spent_after(counts, counts.len() as int, cycles as int)
                    >= cycles,
    {
        let ghost mut trace: Seq<Gba> = seq![*self];
        let ghost mut counts: Seq<u32> = Seq::empty();
        let mut elapsed: u64 = 0;
        while elapsed < cycles as u64
            invariant
                self.bus.wf(),
                elapsed <= cycles,
                rounds(trace, counts),
                trace[0] == *old(self),
                trace.last() == *self,
                elapsed == spent_after(counts, counts.len() as int, cycles as int),
                forall|i: int|
                    0 <= i < counts.len() ==> #[trigger] spent_after(counts, i, cycles as int)
                        < cycles,
            decreases cycles as u64 - elapsed,
        {
            let ghost before = *self;
            let step = self.cpu.step(&mut self.bus);
            let ghost mid = self.bus;
            self.bus.run_cycles(step);
            proof {
                assert(advanced(before, step, *self));
                let old_trace = trace;
                let old_counts = counts;
                trace = trace.push(*self);
                counts = counts.push(step);
                assert(old_counts =~= counts.subrange(0, old_counts.len() as int));
                assert forall|i: int| 0 <= i < counts.len() implies #[trigger] advanced(
                    trace[i],
                    counts[i],
                    trace[i + 1],
                ) by {
                    if i < old_counts.len() {
                        assert(trace[i] == old_trace[i] && trace[i + 1] == old_trace[i + 1]);
                    }
                }
                assert forall|i: int| 0 <= i < counts.len() implies #[trigger] spent_after(
                    counts,
                    i,
                    cycles as int,
                ) < cycles by {
                    lemma_spent_prefix(old_counts, counts, i, cycles as int);
                }
                lemma_spent_prefix(old_counts, counts, old_counts.len() as int, cycles as int);
            }
            elapsed = if elapsed + step as u64 > cycles as u64 {
                cycles as u64
            } else {
                elapsed + step as u64
            };
        }
    }

    /// `keys` holds the pressed buttons; KEYINPUT itself is active low.
    pub fn set_keys(&mut self, keys: u16)
        ensures
            final(self).bus.keyinput == !keys & 0x03ff,
            final(self).cpu == old(self).cpu,
            final(self).bus == (Bus { keyinput: !keys & 0x03ff, ..old(self).bus }),
    {
        self.bus.keyinput = !keys & 0x03ff;
    }

    pub fn framebuffer(&self) -> (pixels: &[u32])
        ensures
            pixels@ == self.bus.ppu.framebuffer@,
    {
        self.bus.ppu.framebuffer.as_slice()
    }

    /// Hands over the samples mixed so far and starts a new buffer.
    pub fn take_audio(&mut self) -> (samples: Vec<i16>)
        requires
            old(self).wf(),
        ensures
            final(self).wf(),
            samples@ == old(self).bus.apu.buffer@,
            final(self).bus.apu.buffer@.len() == 0,
            final(self).cpu == old(self).cpu,
            final(self).bus == (Bus {
                apu: crate::apu::Apu { buffer: final(self).bus.apu.buffer, ..old(self).bus.apu },
                ..old(self).bus
            }),
    {
        let mut samples: Vec<i16> = Vec::new();
        std::mem::swap(&mut samples, &mut self.bus.apu.buffer);
        samples
    }

    /// The game a state belongs to: the CRC-32 of its ROM.
    pub fn game_id(&self) -> (id: u32)
        ensures
            id == crc32_of(self.bus.cart.rom@),
    {
        crate::png::crc32(self.bus.cart.rom.as_slice())
    }

    /// A save state: the header naming the game, the processor, then the
    /// rest of the machine.
    #[verifier::rlimit(60)]
    #[verifier::spinoff_prover]
    pub fn save_state(&self) -> (state: Vec<u8>)
        ensures
            state@ == state_bytes(self),
            state@.len() >= 216,
            state@.subrange(0, 12) == header_bytes(crc32_of(self.bus.cart.rom@)),
            state@.subrange(12, 216) == cpu_bytes(&self.cpu),
    {
        let game = self.game_id();
        let mut writer = Writer::default();
        write_header(&mut writer, game);
        self.cpu.save(&mut writer);
        let ghost front = writer.data@;
        proof {
            crate::cpu::lemma_cpu_bytes_len(&self.cpu);
        }
        let mut rest = Writer::default();
        self.bus.save(&mut rest);
        let ghost back = rest.data@;
        assert(Seq::<u8>::empty() + bus_then(&self.bus, Seq::empty()) == back + Seq::<u8>::empty());
        assert(back =~= bus_then(&self.bus, Seq::empty())) by {
            assert(Seq::<u8>::empty() + bus_then(&self.bus, Seq::empty()) =~= bus_then(
                &self.bus,
                Seq::empty(),
            ));
            assert(back + Seq::<u8>::empty() =~= back);
        }
        let mut data = writer.data;
        data.append(&mut rest.data);
        assert(header_bytes(game).len() == 12);
        assert(front =~= header_bytes(game) + cpu_bytes(&self.cpu));
        assert(data@ =~= state_bytes(self));
        assert(data@.subrange(0, 216) =~= front);
        assert(data@.subrange(0, 12) =~= header_bytes(game));
        assert(data@.subrange(12, 216) =~= cpu_bytes(&self.cpu));
        data
    }

    /// Restores a save state. A state for another game, of another format
    /// version, or that is not a state at all is refused by its header; a
    /// truncated or inconsistent one is refused too, and a refused state
    /// leaves the machine untouched.
    #[verifier::rlimit(60)]
    #[verifier::spinoff_prover]
    pub fn load_state(&mut self, data: &[u8]) -> (result: Result<(), StateError>)
        requires
            old(self).wf(),
        ensures
            final(self).wf(),
            ({
                let b = data@;
                let game = crc32_of(old(self).bus.cart.rom@);
                &&& b.len() < 4 ==> result == Err::<(), StateError>(StateError::Truncated)
                &&& b.len() >= 4 && b.subrange(0, 4) != MAGIC@ ==> result == Err::<(), StateError>(
                    StateError::NotAState,
                )
                &&& b.len() >= 4 && b.subrange(0, 4) == MAGIC@ && b.len() < 8 ==> result == Err::<
                    (),
                    StateError,
                >(StateError::Truncated)
                &&& b.len() >= 8 && b.subrange(0, 4) == MAGIC@ && crate::state::from_le32(b, 4)
                    != VERSION ==> result == Err::<(), StateError>(
                    StateError::WrongVersion(crate::state::from_le32(b, 4)),
                )
                &&& b.len() >= 8 && b.subrange(0, 4) == MAGIC@ && crate::state::from_le32(b, 4)
                    == VERSION && b.len() < 12 ==> result == Err::<(), StateError>(
                    StateError::Truncated,
                )
                &&& b.len() >= 12 && b.subrange(0, 4) == MAGIC@ && crate::state::from_le32(b, 4)
                    == VERSION && crate::state::from_le32(b, 8) != game ==> result == Err::<
                    (),
                    StateError,
                >(StateError::WrongGame)
                &&& result is Ok ==> b.len() >= 216 && b.subrange(0, 12) == header_bytes(game)
                    && cpu_decoded(&final(self).cpu, b, 12) && final(self).bus.cart.rom@
                    == old(self).bus.cart.rom@ && final(self).bus.bios@ == old(self).bus.bios@
                &&& result is Err ==> *final(self) == *old(self)
            }),
            forall|saved: Gba| #[trigger]
                state_bytes(&saved) == data@ && saved.wf() && saved.bus.cart.storable()
                    && saved.bus.cart.rom@ == old(self).bus.cart.rom@ ==> result is Ok
                    && final(self).restored(&saved),
    {
        let game = self.game_id();
        let mut reader = Reader::new(data);
        let ghost r0 = reader;
        proof {
            assert forall|saved: Gba| #[trigger]
                state_bytes(&saved) == data@ && saved.wf() && saved.bus.cart.storable()
                    && saved.bus.cart.rom@ == self.bus.cart.rom@ implies r0.expects(
                header_bytes(game) + (cpu_bytes(&saved.cpu) + bus_then(&saved.bus, Seq::empty())),
            ) by {
                assert(data@.subrange(0, data@.len() as int) =~= data@);
            }
        }
        let header = read_header(&mut reader, game);
        let ghost r1 = reader;
        proof {
            assert forall|saved: Gba| #[trigger]
                state_bytes(&saved) == data@ && saved.wf() && saved.bus.cart.storable()
                    && saved.bus.cart.rom@ == self.bus.cart.rom@ implies header is Ok && r1.expects(
                cpu_bytes(&saved.cpu) + bus_then(&saved.bus, Seq::empty()),
            ) by {
                assert(r0.expects(
                    header_bytes(game) + (cpu_bytes(&saved.cpu) + bus_then(&saved.bus, Seq::empty())),
                ));
            }
        }
        header?;
        let mut cpu = self.cpu;
        let processor = cpu.load(&mut reader);
        let ghost r2 = reader;
        proof {
            assert forall|saved: Gba| #[trigger]
                state_bytes(&saved) == data@ && saved.wf() && saved.bus.cart.storable()
                    && saved.bus.cart.rom@ == self.bus.cart.rom@ implies processor is Ok && cpu
                == saved.cpu && r2.expects(bus_then(&saved.bus, Seq::empty())) by {
                assert(r1.expects(cpu_bytes(&saved.cpu) + bus_then(&saved.bus, Seq::empty())));
            }
        }
        processor?;
        let rom = self.bus.cart.rom.clone();
        let bios = self.bus.bios.clone();
        assert(rom@ =~= self.bus.cart.rom@);
        assert(bios@ =~= self.bus.bios@);
        assert(crate::bus::padded_bios(bios@) == bios@);
        let mut bus = Bus::new(rom, bios);
        let ghost fresh = bus;
        let machine = bus.load(&mut reader);
        proof {
            assert forall|saved: Gba| #[trigger]
                state_bytes(&saved) == data@ && saved.wf() && saved.bus.cart.storable()
                    && saved.bus.cart.rom@ == self.bus.cart.rom@ implies machine is Ok
                && bus.restored(&saved.bus) by {
                assert(r2.expects(bus_then(&saved.bus, Seq::empty())));
                assert(fresh.wf());
            }
        }
        machine?;
        proof {
            crate::timer::lemma_le32_of_from(data@, 4);
            crate::timer::lemma_le32_of_from(data@, 8);
            assert(data@.subrange(0, 12) =~= data@.subrange(0, 4) + data@.subrange(4, 8)
                + data@.subrange(8, 12));
            assert(data@.subrange(0, 12) =~= header_bytes(game));
        }
        self.cpu = cpu;
        self.bus = bus;
        Ok(())
    }
}

} // verus!
