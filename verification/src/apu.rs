//! Audio: the four PSG channels plus the two DirectSound FIFOs.

use crate::bits::{lemma_and_le_u16, lemma_and_le_usize};
use crate::state::{block_bytes, bool_byte, le16, le32, Reader, Snapshot, StateError, Writer};
use vstd::prelude::*;

verus! {

pub const SAMPLE_RATE: u32 = 32768;

/// 16.78 MHz / 32768 Hz.
pub const CYCLES_PER_SAMPLE: u32 = 512;

/// 16.78 MHz / 512 Hz frame sequencer.
pub const SEQUENCER_PERIOD: u32 = 32_768;

/// The eight steps of each square wave duty cycle.
pub open spec fn duty_bit(duty: int, phase: int) -> bool {
    if duty == 0 {
        phase == 7
    } else if duty == 1 {
        phase == 0 || phase == 7
    } else if duty == 2 {
        phase == 0 || phase >= 5
    } else {
        1 <= phase <= 6
    }
}

fn duty_high(duty: usize, phase: usize) -> (high: bool)
    ensures
        high == duty_bit(duty as int, phase as int),
{
    if duty == 0 {
        phase == 7
    } else if duty == 1 {
        phase == 0 || phase == 7
    } else if duty == 2 {
        phase == 0 || phase >= 5
    } else {
        1 <= phase && phase <= 6
    }
}

/// Volume envelope shared by the square and noise channels.
#[derive(Clone, Copy)]
pub struct Envelope {
    pub initial: u8,
    pub increase: bool,
    pub period: u8,
    pub volume: u8,
    pub timer: u8,
}

impl Envelope {
    pub open spec fn wf(&self) -> bool {
        self.volume <= 15
    }

    fn idle() -> (envelope: Self)
        ensures
            envelope.wf(),
            envelope.initial == 0,
    {
        Envelope { initial: 0, increase: false, period: 0, volume: 0, timer: 0 }
    }

    fn trigger(&mut self)
        requires
            old(self).initial <= 15,
        ensures
            *final(self) == (Envelope {
                volume: old(self).initial,
                timer: old(self).period,
                ..*old(self)
            }),
            final(self).wf(),
    {
        self.volume = self.initial;
        self.timer = self.period;
    }

    /// One envelope step: counts down the period, then moves the volume a
    /// step towards 15 or 0.
    fn tick(&mut self)
        requires
            old(self).wf(),
        ensures
            final(self).wf(),
            old(self).period == 0 ==> *final(self) == *old(self),
            old(self).period != 0 ==> {
                let timer = if old(self).timer > 0 {
                    old(self).timer - 1
                } else {
                    0
                };
                if timer == 0 {
                    &&& final(self).timer == old(self).period
                    &&& final(self).volume == if old(self).increase && old(self).volume < 15 {
                        old(self).volume + 1
                    } else if !old(self).increase && old(self).volume > 0 {
                        old(self).volume - 1
                    } else {
                        old(self).volume as int
                    }
                } else {
                    final(self).timer == timer && final(self).volume == old(self).volume
                }
            },
            final(self).initial == old(self).initial,
            final(self).period == old(self).period,
            final(self).increase == old(self).increase,
    {
        if self.period == 0 {
            return;
        }
        if self.timer > 0 {
            self.timer = self.timer - 1;
        }
        if self.timer == 0 {
            self.timer = self.period;
            if self.increase && self.volume < 15 {
                self.volume = self.volume + 1;
            } else if !self.increase && self.volume > 0 {
                self.volume = self.volume - 1;
            }
        }
    }
}

/// Counts a channel timer down by `cycles`, reloading it with `period`
/// each time it runs out: the new timer and how many times it ran out.
pub open spec fn countdown(timer: int, cycles: int, period: int) -> (int, int) {
    let left = timer - cycles;
    if left > 0 {
        (left, 0)
    } else {
        let times = (-left) / period + 1;
        (left + times * period, times)
    }
}

fn run_timer(timer: i32, cycles: u32, period: i32) -> (result: (i32, u64))
    requires
        period >= 1,
    ensures
        (result.0 as int, result.1 as int) == countdown(timer as int, cycles as int, period as int),
        0 < result.0 <= period || (result.0 == timer - cycles && result.1 == 0),
{
    let mut left: i64 = timer as i64 - cycles as i64;
    if left > 0 {
        return (left as i32, 0);
    }
    let ghost start = left;
    let times = ((0 - left) as u64) / (period as u64) + 1;
    proof {
        let p = period as int;
        let n = (0 - start) as int;
        vstd::arithmetic::div_mod::lemma_fundamental_div_mod(n, p);
        assert(n == p * (n / p) + n % p);
        assert(0 <= n % p < p);
        assert(start + (n / p + 1) * p == p - n % p) by (nonlinear_arith)
            requires
                n == p * (n / p) + n % p,
                start == -n,
        ;
    }
    left = left + times as i64 * period as i64;
    (left as i32, times)
}

#[derive(Clone, Copy)]
pub struct Square {
    pub enabled: bool,
    pub frequency: u16,
    pub timer: i32,
    pub phase: usize,
    pub duty: usize,
    pub length: u16,
    pub length_enabled: bool,
    pub envelope: Envelope,
    pub sweep_period: u8,
    pub sweep_decrease: bool,
    pub sweep_shift: u8,
    pub sweep_timer: u8,
    pub sweep_enabled: bool,
    pub sweep_shadow: u16,
}

/// One tick of the frequency sweep: its timer counts down, and when it
/// runs out it reloads (a period of zero counts as eight) and, with a
/// period and a shift set, the shadow frequency moves by itself shifted
/// right, up or down; a result past 2047 silences the channel instead.
pub open spec fn sweep_ticked(s: Square) -> Square {
    if !s.sweep_enabled {
        s
    } else {
        let timer: u8 = if s.sweep_timer > 0 {
            (s.sweep_timer - 1) as u8
        } else {
            s.sweep_timer
        };
        if timer != 0 {
            Square { sweep_timer: timer, ..s }
        } else {
            let reload: u8 = if s.sweep_period == 0 {
                8
            } else {
                s.sweep_period
            };
            if s.sweep_period != 0 && s.sweep_shift != 0 {
                let delta = s.sweep_shadow >> (s.sweep_shift as u16);
                let next: int = if s.sweep_decrease {
                    s.sweep_shadow.wrapping_sub(delta) as int
                } else {
                    s.sweep_shadow + delta
                };
                if next > 2047 {
                    Square { sweep_timer: reload, enabled: false, ..s }
                } else {
                    Square {
                        sweep_timer: reload,
                        sweep_shadow: next as u16,
                        frequency: next as u16,
                        ..s
                    }
                }
            } else {
                Square { sweep_timer: reload, ..s }
            }
        }
    }
}

impl Square {
    pub open spec fn wf(&self) -> bool {
        &&& self.frequency <= 2047
        &&& self.sweep_shadow <= 2047
        &&& self.phase < 8
        &&& self.duty < 4
        &&& self.envelope.wf()
        &&& self.envelope.initial <= 15
        &&& self.timer <= 8192
        &&& self.sweep_period <= 7
        &&& self.sweep_shift <= 7
    }

    pub open spec fn period_spec(&self) -> int {
        (2048 - self.frequency) * 4
    }

    fn idle() -> (square: Self)
        ensures
            square.wf(),
            !square.enabled,
    {
        Square {
            enabled: false,
            frequency: 0,
            timer: 0,
            phase: 0,
            duty: 0,
            length: 0,
            length_enabled: false,
            envelope: Envelope::idle(),
            sweep_period: 0,
            sweep_decrease: false,
            sweep_shift: 0,
            sweep_timer: 0,
            sweep_enabled: false,
            sweep_shadow: 0,
        }
    }

    fn period(&self) -> (period: i32)
        requires
            self.frequency <= 2047,
        ensures
            period == self.period_spec(),
            4 <= period <= 8192,
    {
        (2048 - self.frequency as i32) * 4
    }

    fn trigger(&mut self)
        requires
            old(self).wf(),
        ensures
            final(self).wf(),
            final(self).enabled,
            final(self).timer == old(self).period_spec(),
            final(self).envelope.volume == old(self).envelope.initial,
            final(self).length == if old(self).length == 0 {
                64
            } else {
                old(self).length
            },
            final(self).sweep_shadow == old(self).frequency,
            final(self).sweep_enabled == (old(self).sweep_period != 0 || old(self).sweep_shift
                != 0),
            final(self).frequency == old(self).frequency,
            *final(self) == (Square {
                enabled: true,
                timer: old(self).period_spec() as i32,
                envelope: Envelope {
                    volume: old(self).envelope.initial,
                    timer: old(self).envelope.period,
                    ..old(self).envelope
                },
                length: if old(self).length == 0 {
                    64
                } else {
                    old(self).length
                },
                sweep_shadow: old(self).frequency,
                sweep_timer: if old(self).sweep_period == 0 {
                    8
                } else {
                    old(self).sweep_period
                },
                sweep_enabled: old(self).sweep_period != 0 || old(self).sweep_shift != 0,
                ..*old(self)
            }),
    {
        self.enabled = true;
        self.timer = self.period();
        self.envelope.trigger();
        if self.length == 0 {
            self.length = 64;
        }
        self.sweep_shadow = self.frequency;
        self.sweep_timer = if self.sweep_period == 0 {
            8
        } else {
            self.sweep_period
        };
        self.sweep_enabled = self.sweep_period != 0 || self.sweep_shift != 0;
    }

    /// Runs the duty cycle forward by `cycles`.
    fn tick(&mut self, cycles: u32)
        requires
            old(self).wf(),
        ensures
            final(self).wf(),
            !old(self).enabled ==> *final(self) == *old(self),
            old(self).enabled ==> ({
                let (timer, times) = countdown(
                    old(self).timer as int,
                    cycles as int,
                    old(self).period_spec(),
                );
                final(self).timer == timer && final(self).phase == (old(self).phase + times) % 8
            }),
            final(self).enabled == old(self).enabled,
            final(self).frequency == old(self).frequency,
            final(self).envelope == old(self).envelope,
            final(self).duty == old(self).duty,
    {
        if !self.enabled {
            return;
        }
        let period = self.period();
        let (timer, times) = run_timer(self.timer, cycles, period);
        self.timer = timer;
        let ph = self.phase as u64;
        let low = times & 7;
        proof {
            crate::bits::lemma_and_le_u64(times, 7);
        }
        let sum = ph + low;
        let next = sum & 7;
        assert(next == (ph + times) % 8) by (bit_vector)
            requires
                ph < 8,
                low == times & 7,
                sum == ph + low,
                next == sum & 7,
        ;
        self.phase = next as usize;
    }

    /// Signed so a silent channel contributes nothing rather than a DC step.
    fn sample(&self) -> (value: i16)
        requires
            self.wf(),
        ensures
            value == if !self.enabled || self.envelope.volume == 0 {
                0
            } else if duty_bit(self.duty as int, self.phase as int) {
                self.envelope.volume as int
            } else {
                -(self.envelope.volume as int)
            },
    {
        if !self.enabled || self.envelope.volume == 0 {
            return 0;
        }
        let volume = self.envelope.volume as i16;
        if duty_high(self.duty, self.phase) {
            volume
        } else {
            -volume
        }
    }

    fn tick_length(&mut self)
        requires
            old(self).wf(),
        ensures
            final(self).wf(),
            old(self).length_enabled && old(self).length > 0 ==> final(self).length == old(self).length - 1 && final(self).enabled == (old(self).enabled && old(self).length != 1),
            !(old(self).length_enabled && old(self).length > 0) ==> *final(self) == *old(self),
    {
        if self.length_enabled && self.length > 0 {
            self.length = self.length - 1;
            if self.length == 0 {
                self.enabled = false;
            }
        }
    }

    /// Frequency sweep: every sweep period the frequency moves by itself
    /// shifted right, and silences the channel when it would pass 2047.
    fn tick_sweep(&mut self)
        requires
            old(self).wf(),
        ensures
            final(self).wf(),
            *final(self) == sweep_ticked(*old(self)),
    {
        if !self.sweep_enabled {
            return;
        }
        if self.sweep_timer > 0 {
            self.sweep_timer = self.sweep_timer - 1;
        }
        if self.sweep_timer == 0 {
            self.sweep_timer = if self.sweep_period == 0 {
                8
            } else {
                self.sweep_period
            };
            if self.sweep_period != 0 && self.sweep_shift != 0 {
                let delta = self.sweep_shadow >> self.sweep_shift as u16;
                proof {
                    crate::bits::lemma_shr_le_u16(self.sweep_shadow, self.sweep_shift as u16);
                }
                let next = if self.sweep_decrease {
                    self.sweep_shadow.wrapping_sub(delta)
                } else {
                    self.sweep_shadow + delta
                };
                if next > 2047 {
                    self.enabled = false;
                } else {
                    self.sweep_shadow = next;
                    self.frequency = next;
                }
            }
        }
    }
}

#[derive(Clone, Copy)]
pub struct Wave {
    pub enabled: bool,
    pub playing: bool,
    /// Two banks of 32 four bit samples, sixteen bytes each.
    pub banks: [u8; 32],
    pub bank: usize,
    pub two_banks: bool,
    pub position: usize,
    pub frequency: u16,
    pub timer: i32,
    pub volume: u8,
    pub force_75: bool,
    pub length: u16,
    pub length_enabled: bool,
}

impl Wave {
    pub open spec fn wf(&self) -> bool {
        &&& self.bank <= 1
        &&& self.position < 32
        &&& self.frequency <= 2047
        &&& self.timer <= 4096
    }

    pub open spec fn period_spec(&self) -> int {
        (2048 - self.frequency) * 2
    }

    fn idle() -> (wave: Self)
        ensures
            wave.wf(),
            !wave.playing,
    {
        Wave {
            enabled: false,
            playing: false,
            banks: [0; 32],
            bank: 0,
            two_banks: false,
            position: 0,
            frequency: 0,
            timer: 0,
            volume: 0,
            force_75: false,
            length: 0,
            length_enabled: false,
        }
    }

    fn period(&self) -> (period: i32)
        requires
            self.frequency <= 2047,
        ensures
            period == self.period_spec(),
            2 <= period <= 4096,
    {
        (2048 - self.frequency as i32) * 2
    }

    fn trigger(&mut self)
        requires
            old(self).wf(),
        ensures
            final(self).wf(),
            final(self).playing,
            final(self).position == 0,
            final(self).timer == old(self).period_spec(),
            final(self).length == if old(self).length == 0 {
                256
            } else {
                old(self).length
            },
            *final(self) == (Wave {
                playing: true,
                position: 0,
                timer: old(self).period_spec() as i32,
                length: if old(self).length == 0 {
                    256
                } else {
                    old(self).length
                },
                ..*old(self)
            }),
    {
        self.playing = true;
        self.position = 0;
        self.timer = self.period();
        if self.length == 0 {
            self.length = 256;
        }
    }

    /// Steps through the 32 samples of the bank, swapping banks at the end
    /// in two bank mode.
    fn tick(&mut self, cycles: u32)
        requires
            old(self).wf(),
        ensures
            final(self).wf(),
            !(old(self).playing && old(self).enabled) ==> *final(self) == *old(self),
            old(self).playing && old(self).enabled ==> ({
                let (timer, times) = countdown(
                    old(self).timer as int,
                    cycles as int,
                    old(self).period_spec(),
                );
                let total = old(self).position + times;
                &&& final(self).timer == timer
                &&& final(self).position == total % 32
                &&& final(self).bank == if old(self).two_banks && (total / 32) % 2 == 1 {
                    1 - old(self).bank
                } else {
                    old(self).bank as int
                }
            }),
            final(self).playing == old(self).playing,
            final(self).enabled == old(self).enabled,
            final(self).banks == old(self).banks,
    {
        if !self.playing || !self.enabled {
            return;
        }
        let period = self.period();
        let (timer, times) = run_timer(self.timer, cycles, period);
        self.timer = timer;
        let total = self.position as u64 + times;
        let wraps = total / 32;
        self.position = (total % 32) as usize;
        if self.two_banks && wraps % 2 == 1 {
            self.bank = 1 - self.bank;
        }
    }

    fn sample(&self) -> (value: i16)
        requires
            self.wf(),
        ensures
            !self.playing || !self.enabled ==> value == 0,
            -8 <= value <= 7,
            value == wave_sample(*self),
    {
        if !self.playing || !self.enabled {
            return 0;
        }
        let byte = self.banks[self.bank * 16 + self.position / 2];
        let nibble = if self.position & 1 == 0 {
            byte >> 4u8
        } else {
            byte & 0xf
        } as i16;
        proof {
            crate::bits::lemma_high_nibble_u8(byte);
            crate::bits::lemma_and_le_u8(byte, 0xf);
        }
        let centred = nibble - 8;
        if self.force_75 {
            centred * 3 / 4
        } else if self.volume == 0 {
            0
        } else if self.volume == 1 {
            centred
        } else if self.volume == 2 {
            centred / 2
        } else {
            centred / 4
        }
    }

    fn tick_length(&mut self)
        requires
            old(self).wf(),
        ensures
            final(self).wf(),
            old(self).length_enabled && old(self).length > 0 ==> final(self).length == old(self).length - 1 && final(self).playing == (old(self).playing && old(self).length != 1),
            !(old(self).length_enabled && old(self).length > 0) ==> *final(self) == *old(self),
    {
        if self.length_enabled && self.length > 0 {
            self.length = self.length - 1;
            if self.length == 0 {
                self.playing = false;
            }
        }
    }
}

#[derive(Clone, Copy)]
pub struct Noise {
    pub enabled: bool,
    pub lfsr: u16,
    pub timer: i32,
    pub divisor: u8,
    pub shift: u8,
    pub width7: bool,
    pub length: u16,
    pub length_enabled: bool,
    pub envelope: Envelope,
}

/// One step of the noise generator's shift register, in 15 or 7 bit mode.
pub open spec fn lfsr_step(lfsr: u16, width7: bool) -> u16 {
    let bit = (lfsr ^ (lfsr >> 1u16)) & 1;
    let shifted = (lfsr >> 1u16) | (bit << 14u16);
    if width7 {
        (shifted & !0x40u16) | (bit << 6u16)
    } else {
        shifted
    }
}

/// The shift register after `count` steps.
pub open spec fn lfsr_steps(lfsr: u16, width7: bool, count: nat) -> u16
    decreases count,
{
    if count == 0 {
        lfsr
    } else {
        lfsr_step(lfsr_steps(lfsr, width7, (count - 1) as nat), width7)
    }
}

impl Noise {
    pub open spec fn wf(&self) -> bool {
        &&& self.divisor <= 7
        &&& self.shift <= 15
        &&& self.envelope.wf()
        &&& self.envelope.initial <= 15
    }

    fn idle() -> (noise: Self)
        ensures
            noise.wf(),
            !noise.enabled,
    {
        Noise {
            enabled: false,
            lfsr: 0,
            timer: 0,
            divisor: 0,
            shift: 0,
            width7: false,
            length: 0,
            length_enabled: false,
            envelope: Envelope::idle(),
        }
    }

    /// The clock divisor shifted by the frequency shift, in cycles.
    pub open spec fn period_value(&self) -> int {
        (if self.divisor == 0 {
            8
        } else {
            self.divisor * 16
        }) * vstd::arithmetic::power2::pow2(self.shift as nat)
    }

    /// Clock divisor shifted by the frequency shift.
    fn period(&self) -> (period: i64)
        requires
            self.wf(),
        ensures
            period == (if self.divisor == 0 {
                8
            } else {
                self.divisor * 16
            }) * vstd::arithmetic::power2::pow2(self.shift as nat),
            8 <= period <= 112 * 32768,
    {
        let divisor: u64 = if self.divisor == 0 {
            8
        } else {
            self.divisor as u64 * 16
        };
        let shift = self.shift as u64;
        proof {
            vstd::arithmetic::power2::lemma2_to64();
            if shift < 15 {
                vstd::arithmetic::power2::lemma_pow2_strictly_increases(shift as nat, 15);
            }
            vstd::arithmetic::power2::lemma_pow2_pos(shift as nat);
            let p = vstd::arithmetic::power2::pow2(shift as nat);
            assert(divisor * p <= 112 * 32768) by (nonlinear_arith)
                requires
                    divisor <= 112,
                    p <= 32768,
            ;
            assert(divisor * p >= 8) by (nonlinear_arith)
                requires
                    divisor >= 8,
                    p >= 1,
            ;
            vstd::bits::lemma_u64_shl_is_mul(divisor, shift);
        }
        (divisor << shift) as i64
    }

    fn trigger(&mut self)
        requires
            old(self).wf(),
        ensures
            final(self).wf(),
            final(self).enabled,
            final(self).lfsr == 0x7fff,
            final(self).envelope.volume == old(self).envelope.initial,
            final(self).length == if old(self).length == 0 {
                64
            } else {
                old(self).length
            },
            *final(self) == (Noise {
                enabled: true,
                lfsr: 0x7fff,
                timer: final(self).timer,
                envelope: Envelope {
                    volume: old(self).envelope.initial,
                    timer: old(self).envelope.period,
                    ..old(self).envelope
                },
                length: if old(self).length == 0 {
                    64
                } else {
                    old(self).length
                },
                ..*old(self)
            }),
            final(self).timer == (if old(self).divisor == 0 {
                8
            } else {
                old(self).divisor * 16
            }) * vstd::arithmetic::power2::pow2(old(self).shift as nat),
    {
        self.enabled = true;
        self.lfsr = 0x7fff;
        let period = self.period();
        self.timer = period as i32;
        self.envelope.trigger();
        if self.length == 0 {
            self.length = 64;
        }
    }

    /// Clocks the shift register once per period elapsed.
    fn tick(&mut self, cycles: u32)
        requires
            old(self).wf(),
        ensures
            final(self).wf(),
            !old(self).enabled ==> *final(self) == *old(self),
            final(self).enabled == old(self).enabled,
            final(self).envelope == old(self).envelope,
            old(self).enabled ==> exists|steps: nat|
                #[trigger] lfsr_steps(old(self).lfsr, old(self).width7, steps) == final(self).lfsr
                    && old(self).timer - cycles + steps * old(self).period_value() > 0 && (steps
                    == 0 || old(self).timer - cycles + (steps - 1) * old(self).period_value() <= 0),
    {
        if !self.enabled {
            return;
        }
        let period = self.period();
        let mut left: i64 = self.timer as i64 - cycles as i64;
        let ghost mut steps: nat = 0;
        while left <= 0
            invariant
                self.wf(),
                self.enabled == old(self).enabled,
                self.envelope == old(self).envelope,
                self.width7 == old(self).width7,
                period == old(self).period_value(),
                8 <= period <= 112 * 32768,
                left >= -0x2_0000_0000,
                left == old(self).timer - cycles + steps * period,
                self.lfsr == lfsr_steps(old(self).lfsr, old(self).width7, steps),
                steps == 0 || old(self).timer - cycles + (steps - 1) * period <= 0,
            decreases period - left,
        {
            left = left + period;
            let lfsr = self.lfsr;
            let bit = (lfsr ^ (lfsr >> 1u16)) & 1;
            let mut next = (lfsr >> 1u16) | (bit << 14u16);
            if self.width7 {
                next = (next & !0x40u16) | (bit << 6u16);
            }
            self.lfsr = next;
            proof {
                assert((steps + 1) * period == steps * period + period) by (nonlinear_arith);
                steps = steps + 1;
            }
        }
        assert(lfsr_steps(old(self).lfsr, old(self).width7, steps) == self.lfsr);
        self.timer = if left > 0x7fff_ffff {
            0x7fff_ffff
        } else {
            left as i32
        };
    }

    fn sample(&self) -> (value: i16)
        requires
            self.wf(),
        ensures
            value == if !self.enabled || self.envelope.volume == 0 {
                0
            } else if self.lfsr & 1 == 0 {
                self.envelope.volume as int
            } else {
                -(self.envelope.volume as int)
            },
    {
        if !self.enabled || self.envelope.volume == 0 {
            return 0;
        }
        let volume = self.envelope.volume as i16;
        if self.lfsr & 1 == 0 {
            volume
        } else {
            -volume
        }
    }

    fn tick_length(&mut self)
        requires
            old(self).wf(),
        ensures
            final(self).wf(),
            old(self).length_enabled && old(self).length > 0 ==> final(self).length == old(self).length - 1 && final(self).enabled == (old(self).enabled && old(self).length != 1),
            !(old(self).length_enabled && old(self).length > 0) ==> *final(self) == *old(self),
    {
        if self.length_enabled && self.length > 0 {
            self.length = self.length - 1;
            if self.length == 0 {
                self.enabled = false;
            }
        }
    }
}

/// A DirectSound FIFO: a 32 sample ring buffer and the sample playing now.
#[derive(Clone, Copy)]
pub struct Fifo {
    pub data: [i8; 32],
    pub read: usize,
    pub write: usize,
    pub length: usize,
    pub current: i8,
}

impl Fifo {
    pub open spec fn wf(&self) -> bool {
        &&& self.read < 32
        &&& self.write < 32
        &&& self.length <= 32
        &&& self.write == (self.read + self.length) % 32
    }

    /// The queued samples, oldest first.
    pub open spec fn queued(&self) -> Seq<i8> {
        Seq::new(self.length as nat, |i: int| self.data@[(self.read + i) % 32])
    }

    fn empty() -> (fifo: Self)
        ensures
            fifo.wf(),
            fifo.queued() == Seq::<i8>::empty(),
            fifo.current == 0,
    {
        let fifo = Fifo { data: [0; 32], read: 0, write: 0, length: 0, current: 0 };
        assert(fifo.queued() =~= Seq::<i8>::empty());
        fifo
    }

    /// Queues a sample; a full FIFO drops it.
    fn push(&mut self, value: i8)
        requires
            old(self).wf(),
        ensures
            final(self).wf(),
            final(self).current == old(self).current,
            final(self).queued() == if old(self).length < 32 {
                old(self).queued().push(value)
            } else {
                old(self).queued()
            },
    {
        if self.length < 32 {
            let ghost before = self.queued();
            self.data[self.write] = value;
            self.write = (self.write + 1) % 32;
            self.length = self.length + 1;
            proof {
                assert forall|i: int| 0 <= i < old(self).length implies #[trigger] self.queued()[i]
                    == before[i] by {
                    let r = old(self).read as int;
                    let n = old(self).length as int;
                    assert((r + i) % 32 != (r + n) % 32) by (nonlinear_arith)
                        requires
                            0 <= i < n,
                            n < 32,
                            0 <= r < 32,
                    ;
                }
                assert(self.queued()[old(self).length as int] == value);
                assert(self.queued() =~= before.push(value));
            }
        }
    }

    /// Moves the oldest sample to `current`; an empty FIFO keeps playing
    /// the last one.
    fn pop(&mut self)
        requires
            old(self).wf(),
        ensures
            final(self).wf(),
            old(self).length > 0 ==> final(self).current == old(self).queued()[0] && final(self).queued() == old(self).queued().drop_first(),
            old(self).length == 0 ==> *final(self) == *old(self),
    {
        if self.length > 0 {
            let ghost before = self.queued();
            self.current = self.data[self.read];
            self.read = (self.read + 1) % 32;
            self.length = self.length - 1;
            proof {
                assert forall|i: int| 0 <= i < self.length implies #[trigger] self.queued()[i]
                    == before.drop_first()[i] by {
                    vstd::arithmetic::div_mod::lemma_add_mod_noop_right(i, old(self).read + 1, 32);
                    assert((i + (old(self).read + 1)) % 32 == (old(self).read + (i + 1)) % 32);
                }
                assert(self.queued() =~= before.drop_first());
            }
        }
    }

    fn clear(&mut self)
        ensures
            final(self).wf(),
            final(self).queued() == Seq::<i8>::empty(),
            final(self).current == 0,
            *final(self) == (Fifo { read: 0, write: 0, length: 0, current: 0, ..*old(self) }),
    {
        self.read = 0;
        self.write = 0;
        self.length = 0;
        self.current = 0;
        assert(self.queued() =~= Seq::<i8>::empty());
    }
}

/// Samples pushed into a FIFO come out in the order they went in: after
/// pushing `a` and then `b` into an empty FIFO, popping twice plays `a`
/// and then `b`.
pub proof fn law_fifo_keeps_order(queue: Seq<i8>, a: i8, b: i8)
    requires
        queue.len() == 0,
    ensures
        queue.push(a).push(b)[0] == a,
        queue.push(a).push(b).drop_first()[0] == b,
        queue.push(a).push(b).drop_first().drop_first().len() == 0,
{
}

/// Division rounding towards zero, as Rust divides signed integers.
pub open spec fn trunc_div(x: int, d: int) -> int {
    if x >= 0 {
        x / d
    } else {
        -((-x) / d)
    }
}

/// What the wave channel outputs: the current four bit sample centred on
/// zero, scaled by its volume (a quarter, a half, all of it, three
/// quarters when forced, or nothing).
pub open spec fn wave_sample(w: Wave) -> int {
    if !w.playing || !w.enabled {
        0
    } else {
        let byte = w.banks[w.bank * 16 + w.position / 2];
        let nibble = if w.position & 1 == 0 {
            byte >> 4u8
        } else {
            byte & 0xf
        };
        let centred = nibble - 8;
        if w.force_75 {
            trunc_div(centred * 3, 4)
        } else if w.volume == 0 {
            0
        } else if w.volume == 1 {
            centred
        } else if w.volume == 2 {
            trunc_div(centred, 2)
        } else {
            trunc_div(centred, 4)
        }
    }
}

/// What a square channel outputs: its envelope volume, positive or
/// negative as the duty cycle is high or low.
pub open spec fn square_sample(s: Square) -> int {
    if !s.enabled || s.envelope.volume == 0 {
        0
    } else if duty_bit(s.duty as int, s.phase as int) {
        s.envelope.volume as int
    } else {
        -(s.envelope.volume as int)
    }
}

/// What the noise channel outputs: its envelope volume, negative when the
/// shift register's low bit is set.
pub open spec fn noise_sample(n: Noise) -> int {
    if !n.enabled || n.envelope.volume == 0 {
        0
    } else if n.lfsr & 1 == 0 {
        n.envelope.volume as int
    } else {
        -(n.envelope.volume as int)
    }
}

/// The output of PSG channel `index` (square 1, square 2, wave, noise).
pub open spec fn psg_sample(a: Apu, index: int) -> int {
    if index == 0 {
        square_sample(a.square1)
    } else if index == 1 {
        square_sample(a.square2)
    } else if index == 2 {
        wave_sample(a.wave)
    } else {
        noise_sample(a.noise)
    }
}

/// The PSG channels enabled on a side (enable bits from `shift` in
/// SOUNDCNT_L), each scaled by 96, summed over the first `count` channels.
pub open spec fn psg_sum(a: Apu, shift: int, count: int) -> int
    decreases count,
{
    if count <= 0 {
        0
    } else {
        psg_sum(a, shift, count - 1) + if a.control_l & (1u16 << ((shift + count - 1) as u16)) != 0 {
            psg_sample(a, count - 1) * 96
        } else {
            0
        }
    }
}

/// The PSG volume that SOUNDCNT_H selects: a quarter, a half or all of it.
pub open spec fn psg_volume(a: Apu) -> int {
    if a.control_h & 3 == 0 {
        1
    } else if a.control_h & 3 == 1 {
        2
    } else {
        4
    }
}

/// A DirectSound channel's contribution: its current sample at half or
/// full volume (x 32), where SOUNDCNT_H enables it on the side (`bit` 8
/// right, 9 left, four more for channel B).
pub open spec fn fifo_part(a: Apu, channel: int, bit: int) -> int {
    let volume = if a.control_h & (1u16 << ((2 + channel) as u16)) != 0 {
        4int
    } else {
        2int
    };
    if a.control_h & (1u16 << ((bit + channel * 4) as u16)) != 0 {
        a.fifo[channel].current * volume * 32
    } else {
        0
    }
}

/// The left sample before clamping: the PSG sum scaled by the left master
/// volume and the PSG volume, then the DirectSound channels.
pub open spec fn mixed_left(a: Apu) -> int {
    let volume = (a.control_l & 7) + 1;
    trunc_div(trunc_div(psg_sum(a, 8, 4) * volume * psg_volume(a), 8), 4) + fifo_part(a, 0, 9)
        + fifo_part(a, 1, 9)
}

/// The right sample before clamping.
pub open spec fn mixed_right(a: Apu) -> int {
    let volume = ((a.control_l >> 4u16) & 7) + 1;
    trunc_div(trunc_div(psg_sum(a, 12, 4) * volume * psg_volume(a), 8), 4) + fifo_part(a, 0, 8)
        + fifo_part(a, 1, 8)
}

/// A sample clamped to sixteen bits.
pub open spec fn clamp16(x: int) -> int {
    if x < -32768 {
        -32768
    } else if x > 32767 {
        32767
    } else {
        x
    }
}

pub struct Apu {
    pub square1: Square,
    pub square2: Square,
    pub wave: Wave,
    pub noise: Noise,
    pub fifo: [Fifo; 2],
    pub control_l: u16,
    pub control_h: u16,
    pub control_x: u16,
    pub bias: u16,
    pub sample_timer: u32,
    pub sequencer_timer: u32,
    pub sequencer_step: u32,
    pub buffer: Vec<i16>,
    pub enabled: bool,
}

/// A square channel's length, duty and envelope register written.
pub open spec fn square_duty_written(s: Square, value: u16) -> Square {
    let initial = ((value >> 12u16) & 0xf) as u8;
    Square {
        length: (64 - (value & 0x3f)) as u16,
        duty: ((value >> 6u16) & 3) as usize,
        envelope: Envelope {
            period: ((value >> 8u16) & 7) as u8,
            increase: value & 0x800 != 0,
            initial,
            volume: initial,
            ..s.envelope
        },
        enabled: if value & 0xf800 == 0 {
            false
        } else {
            s.enabled
        },
        ..s
    }
}

/// A square channel restarted: full length if it ran out, the envelope and
/// sweep reloaded.
pub open spec fn square_triggered(s: Square) -> Square {
    Square {
        enabled: true,
        timer: s.period_spec() as i32,
        envelope: Envelope { volume: s.envelope.initial, timer: s.envelope.period, ..s.envelope },
        length: if s.length == 0 {
            64
        } else {
            s.length
        },
        sweep_shadow: s.frequency,
        sweep_timer: if s.sweep_period == 0 {
            8
        } else {
            s.sweep_period
        },
        sweep_enabled: s.sweep_period != 0 || s.sweep_shift != 0,
        ..s
    }
}

/// A square channel's frequency register written; bit 15 restarts it.
pub open spec fn square_frequency_written(s: Square, value: u16) -> Square {
    let written = Square { frequency: value & 0x7ff, length_enabled: value & 0x4000 != 0, ..s };
    if value & 0x8000 != 0 {
        square_triggered(written)
    } else {
        written
    }
}

/// The noise channel's length and envelope register written.
pub open spec fn noise_envelope_written(n: Noise, value: u16) -> Noise {
    let initial = ((value >> 12u16) & 0xf) as u8;
    Noise {
        length: (64 - (value & 0x3f)) as u16,
        envelope: Envelope {
            period: ((value >> 8u16) & 7) as u8,
            increase: value & 0x800 != 0,
            initial,
            volume: initial,
            ..n.envelope
        },
        enabled: if value & 0xf800 == 0 {
            false
        } else {
            n.enabled
        },
        ..n
    }
}

/// The noise channel's frequency register written; bit 15 restarts it
/// with a full shift register.
pub open spec fn noise_frequency_written(n: Noise, value: u16) -> Noise {
    let written = Noise {
        divisor: (value & 7) as u8,
        width7: value & 8 != 0,
        shift: ((value >> 4u16) & 0xf) as u8,
        length_enabled: value & 0x4000 != 0,
        ..n
    };
    if value & 0x8000 != 0 {
        Noise {
            enabled: true,
            lfsr: 0x7fff,
            timer: ((if written.divisor == 0 {
                8
            } else {
                written.divisor * 16
            }) * vstd::arithmetic::power2::pow2(written.shift as nat)) as i32,
            envelope: Envelope {
                volume: written.envelope.initial,
                timer: written.envelope.period,
                ..written.envelope
            },
            length: if written.length == 0 {
                64
            } else {
                written.length
            },
            ..written
        }
    } else {
        written
    }
}

/// The wave channel's frequency register written; bit 15 restarts it
/// from the first sample.
pub open spec fn wave_frequency_written(w: Wave, value: u16) -> Wave {
    let written = Wave { frequency: value & 0x7ff, length_enabled: value & 0x4000 != 0, ..w };
    if value & 0x8000 != 0 {
        Wave {
            playing: true,
            position: 0,
            timer: written.period_spec() as i32,
            length: if written.length == 0 {
                256
            } else {
                written.length
            },
            ..written
        }
    } else {
        written
    }
}

/// A FIFO emptied.
pub open spec fn fifo_cleared(f: Fifo) -> Fifo {
    Fifo { read: 0, write: 0, length: 0, current: 0, ..f }
}

/// What a write of `value` to the sound register at `address` does.
pub open spec fn sound_register_written(a: Apu, b: Apu, address: int, value: u16) -> bool {
    if address == 0x60 {
        b == Apu {
            square1: Square {
                sweep_period: ((value >> 4u16) & 7) as u8,
                sweep_decrease: value & 8 != 0,
                sweep_shift: (value & 7) as u8,
                ..a.square1
            },
            ..a
        }
    } else if address == 0x62 {
        b == Apu { square1: square_duty_written(a.square1, value), ..a }
    } else if address == 0x64 {
        b == Apu { square1: square_frequency_written(a.square1, value), ..a }
    } else if address == 0x68 {
        b == Apu { square2: square_duty_written(a.square2, value), ..a }
    } else if address == 0x6c {
        b == Apu { square2: square_frequency_written(a.square2, value), ..a }
    } else if address == 0x70 {
        b == Apu {
            wave: Wave {
                two_banks: value & 0x20 != 0,
                bank: ((value >> 6u16) & 1) as usize,
                enabled: value & 0x80 != 0,
                playing: if value & 0x80 == 0 {
                    false
                } else {
                    a.wave.playing
                },
                ..a.wave
            },
            ..a
        }
    } else if address == 0x72 {
        b == Apu {
            wave: Wave {
                length: (256 - (value & 0xff)) as u16,
                volume: ((value >> 13u16) & 3) as u8,
                force_75: value & 0x8000 != 0,
                ..a.wave
            },
            ..a
        }
    } else if address == 0x74 {
        b == Apu { wave: wave_frequency_written(a.wave, value), ..a }
    } else if address == 0x78 {
        b == Apu { noise: noise_envelope_written(a.noise, value), ..a }
    } else if address == 0x7c {
        b == Apu { noise: noise_frequency_written(a.noise, value), ..a }
    } else if address == 0x80 {
        b == Apu { control_l: value, ..a }
    } else if address == 0x82 {
        &&& b == Apu { control_h: value & 0x770f, fifo: b.fifo, ..a }
        &&& b.fifo[0] == if value & 0x0800 != 0 {
            fifo_cleared(a.fifo[0])
        } else {
            a.fifo[0]
        }
        &&& b.fifo[1] == if value & 0x8000 != 0 {
            fifo_cleared(a.fifo[1])
        } else {
            a.fifo[1]
        }
    } else if address == 0x84 {
        if value & 0x80 == 0 {
            b == Apu {
                control_x: value & 0x80,
                square1: Square { enabled: false, ..a.square1 },
                square2: Square { enabled: false, ..a.square2 },
                wave: Wave { playing: false, ..a.wave },
                noise: Noise { enabled: false, ..a.noise },
                ..a
            }
        } else {
            b == Apu { control_x: value & 0x80, ..a }
        }
    } else if address == 0x88 {
        b == Apu { bias: value, ..a }
    } else if 0x90 <= address <= 0x9f {
        let base = (1 - a.wave.bank) * 16 + (address - 0x90);
        &&& b == Apu { wave: Wave { banks: b.wave.banks, ..a.wave }, ..a }
        &&& b.wave.banks@ == a.wave.banks@.update(base, value as u8).update(
            base + 1,
            (value >> 8u16) as u8,
        )
    } else {
        b == a
    }
}

/// The sound unit advanced by `cycles`: a stereo sample pair appended per
/// sample period, silence while the master switch is off, and the FIFOs
/// and control registers left alone.
pub open spec fn apu_ticked(a: &Apu, cycles: u32, b: &Apu) -> bool {
    &&& b.buffer@.len() == a.buffer@.len() + 2 * ((a.sample_timer
            + cycles) / (CYCLES_PER_SAMPLE as int))
    &&& b.buffer@.subrange(0, a.buffer@.len() as int) == a.buffer@
    &&& b.sample_timer == (a.sample_timer + cycles) % (CYCLES_PER_SAMPLE as int)
    &&& b.fifo == a.fifo
    &&& b.control_x & 0x80 == 0 ==> forall|i: int|
            a.buffer@.len() <= i < b.buffer@.len() ==> #[trigger] b.buffer@[i] == 0
    &&& b.control_h == a.control_h
    &&& b.control_l == a.control_l
    &&& b.control_x == a.control_x
    &&& b.bias == a.bias
}

/// A word pushed onto sound FIFO `channel`: its four bytes queued, low byte
/// first, while there is room; nothing else changes.
pub open spec fn fifo_pushed(a: &Apu, channel: usize, value: u32, b: &Apu) -> bool {
    &&& b.fifo[1 - channel as int] == a.fifo[1 - channel as int]
    &&& a.fifo[channel as int].length <= 28 ==> b.fifo[channel as int].queued()
            == a.fifo[channel as int].queued() + seq![
                value as u8 as i8,
                (value >> 8u32) as u8 as i8,
                (value >> 16u32) as u8 as i8,
                (value >> 24u32) as u8 as i8,
            ]
    &&& b.buffer == a.buffer
    &&& b.control_h == a.control_h
    &&& *b == (Apu { fifo: b.fifo, ..*a })
}

impl Apu {
    pub open spec fn wf(&self) -> bool {
        &&& self.square1.wf()
        &&& self.square2.wf()
        &&& self.wave.wf()
        &&& self.noise.wf()
        &&& self.fifo[0].wf()
        &&& self.fifo[1].wf()
        &&& self.sample_timer < CYCLES_PER_SAMPLE
        &&& self.sequencer_timer < SEQUENCER_PERIOD
        &&& self.sequencer_step < 8
    }

    pub fn new() -> (apu: Self)
        ensures
            apu.wf(),
            apu.bias == 0x200,
            apu.control_x == 0,
            apu.buffer@.len() == 0,
            apu.sample_timer == 0,
            apu.sequencer_timer == 0,
            apu.sequencer_step == 0,
            apu.control_l == 0,
            apu.control_h == 0,
            apu.enabled,
            apu.fifo[0].queued().len() == 0,
            apu.fifo[1].queued().len() == 0,
    {
        Apu {
            square1: Square::idle(),
            square2: Square::idle(),
            wave: Wave::idle(),
            noise: Noise::idle(),
            fifo: [Fifo::empty(), Fifo::empty()],
            control_l: 0,
            control_h: 0,
            control_x: 0,
            bias: 0x200,
            sample_timer: 0,
            sequencer_timer: 0,
            sequencer_step: 0,
            buffer: Vec::new(),
            enabled: true,
        }
    }

    /// Whether FIFO `channel` is clocked by timer `timer`.
    pub open spec fn fifo_clocked_by(&self, channel: int, timer: usize) -> bool {
        ((self.control_h >> (10 + channel * 4) as u16) & 1) as int == timer
    }

    /// What a timer overflow does to one FIFO: it plays its next sample.
    pub open spec fn fifo_clocked(before: Fifo, after: Fifo) -> bool {
        &&& before.length > 0 ==> after.queued() == before.queued().drop_first() && after.current
            == before.queued()[0]
        &&& before.length == 0 ==> after == before
    }

    fn clock_fifo(&mut self, channel: usize, timer: usize) -> (wanted: bool)
        requires
            old(self).wf(),
            channel < 2,
        ensures
            final(self).wf(),
            final(self).buffer == old(self).buffer,
            final(self).control_h == old(self).control_h,
            final(self).fifo[1 - channel as int] == old(self).fifo[1 - channel as int],
            old(self).fifo_clocked_by(channel as int, timer) ==> Self::fifo_clocked(
                old(self).fifo[channel as int],
                final(self).fifo[channel as int],
            ) && wanted == (final(self).fifo[channel as int].length <= 16),
            !old(self).fifo_clocked_by(channel as int, timer) ==> !wanted && final(self).fifo
                == old(self).fifo,
    {
        let selected = (self.control_h >> (10 + channel * 4) as u16) & 1;
        if selected as usize == timer {
            let mut fifo = self.fifo[channel];
            fifo.pop();
            let wanted = fifo.length <= 16;
            self.fifo[channel] = fifo;
            wanted
        } else {
            false
        }
    }

    /// Called when a timer overflows: each FIFO clocked by that timer plays
    /// its next sample and asks for a refill once half empty.
    pub fn timer_overflow(&mut self, timer: usize) -> (request: [bool; 2])
        requires
            old(self).wf(),
        ensures
            final(self).wf(),
            final(self).buffer == old(self).buffer,
            final(self).control_h == old(self).control_h,
            old(self).fifo_clocked_by(0, timer) ==> Self::fifo_clocked(
                old(self).fifo[0],
                final(self).fifo[0],
            ) && request[0] == (final(self).fifo[0].length <= 16),
            !old(self).fifo_clocked_by(0, timer) ==> !request[0] && final(self).fifo[0] == old(
                self).fifo[0],
            old(self).fifo_clocked_by(1, timer) ==> Self::fifo_clocked(
                old(self).fifo[1],
                final(self).fifo[1],
            ) && request[1] == (final(self).fifo[1].length <= 16),
            !old(self).fifo_clocked_by(1, timer) ==> !request[1] && final(self).fifo[1] == old(
                self).fifo[1],
    {
        let first = self.clock_fifo(0, timer);
        let second = self.clock_fifo(1, timer);
        [first, second]
    }

    /// Queues the four bytes of a word, lowest first.
    pub fn push_fifo(&mut self, channel: usize, value: u32)
        requires
            old(self).wf(),
            channel < 2,
        ensures
            final(self).wf(),
            fifo_pushed(&*old(self), channel, value, &*final(self)),
    {
        let mut fifo = self.fifo[channel];
        fifo.push(value as u8 as i8);
        fifo.push((value >> 8u32) as u8 as i8);
        fifo.push((value >> 16u32) as u8 as i8);
        fifo.push((value >> 24u32) as u8 as i8);
        self.fifo[channel] = fifo;
        proof {
            if old(self).fifo[channel as int].length <= 28 {
                assert(self.fifo[channel as int].queued() =~= old(self).fifo[channel as int].queued() + seq![
                    value as u8 as i8,
                    (value >> 8u32) as u8 as i8,
                    (value >> 16u32) as u8 as i8,
                    (value >> 24u32) as u8 as i8,
                ]);
            }
        }
    }

    fn frame_sequencer_step(&mut self)
        requires
            old(self).wf(),
        ensures
            final(self).wf(),
            final(self).buffer == old(self).buffer,
            final(self).fifo == old(self).fifo,
            final(self).sample_timer == old(self).sample_timer,
            final(self).sequencer_timer == old(self).sequencer_timer,
            final(self).control_x == old(self).control_x,
            final(self).control_h == old(self).control_h,
            final(self).control_l == old(self).control_l,
            final(self).bias == old(self).bias,
            final(self).sequencer_step == (old(self).sequencer_step + 1) % 8,
    {
        let step = self.sequencer_step;
        if step == 0 || step == 4 || step == 2 || step == 6 {
            self.square1.tick_length();
            self.square2.tick_length();
            self.wave.tick_length();
            self.noise.tick_length();
            if step == 2 || step == 6 {
                self.square1.tick_sweep();
            }
        } else if step == 7 {
            self.square1.envelope.tick();
            self.square2.envelope.tick();
            self.noise.envelope.tick();
        }
        let next = step + 1;
        let wrapped = next & 7;
        assert(wrapped == next % 8) by (bit_vector)
            requires
                wrapped == next & 7,
        ;
        self.sequencer_step = wrapped;
    }

    /// Produces two samples, left then right, every 512 cycles.
    pub fn tick(&mut self, cycles: u32)
        requires
            old(self).wf(),
        ensures
            final(self).wf(),
            apu_ticked(&*old(self), cycles, &*final(self)),
    {
        let master = self.control_x & 0x80 != 0;
        if master {
            self.square1.tick(cycles);
            self.square2.tick(cycles);
            self.wave.tick(cycles);
            self.noise.tick(cycles);
            let mut sequencer: u64 = self.sequencer_timer as u64 + cycles as u64;
            while sequencer >= SEQUENCER_PERIOD as u64
                invariant
                    self.wf(),
                    self.buffer == old(self).buffer,
                    self.fifo == old(self).fifo,
                    self.sample_timer == old(self).sample_timer,
                    self.control_x == old(self).control_x,
                    self.control_h == old(self).control_h,
                    self.control_l == old(self).control_l,
                    self.bias == old(self).bias,
                decreases sequencer,
            {
                sequencer = sequencer - SEQUENCER_PERIOD as u64;
                self.frame_sequencer_step();
            }
            self.sequencer_timer = sequencer as u32;
        }
        // Master disable still advances the sample clock so audio keeps pace.
        let mut now: u64 = self.sample_timer as u64 + cycles as u64;
        let ghost total = self.sample_timer + cycles;
        let ghost mut samples: int = 0;
        let ghost start = self.buffer@;
        while now >= CYCLES_PER_SAMPLE as u64
            invariant
                self.wf(),
                now + samples * CYCLES_PER_SAMPLE == total,
                samples >= 0,
                self.buffer@.len() == start.len() + 2 * samples,
                self.buffer@.subrange(0, start.len() as int) == start,
                start == old(self).buffer@,
                total == old(self).sample_timer + cycles,
                self.fifo == old(self).fifo,
                self.control_x == old(self).control_x,
                self.control_h == old(self).control_h,
                self.control_l == old(self).control_l,
                self.bias == old(self).bias,
                master == (self.control_x & 0x80 != 0),
                !master ==> forall|i: int|
                    start.len() <= i < self.buffer@.len() ==> #[trigger] self.buffer@[i] == 0,
            decreases now,
        {
            now = now - CYCLES_PER_SAMPLE as u64;
            let (left, right) = if master {
                self.mix()
            } else {
                (0, 0)
            };
            self.buffer.push(left);
            self.buffer.push(right);
            proof {
                samples = samples + 1;
                assert(self.buffer@.subrange(0, start.len() as int) =~= start);
            }
        }
        proof {
            vstd::arithmetic::div_mod::lemma_fundamental_div_mod_converse(
                total,
                CYCLES_PER_SAMPLE as int,
                samples,
                now as int,
            );
        }
        self.sample_timer = now as u32;
    }

    /// Mixes the channels into one left and one right sample.
    #[verifier::spinoff_prover]
    #[verifier::rlimit(60)]
    fn mix(&self) -> (sample: (i16, i16))
        requires
            self.wf(),
        ensures
            sample.0 == clamp16(mixed_left(*self)),
            sample.1 == clamp16(mixed_right(*self)),
    {
        let psg_volume: i32 = if self.control_h & 3 == 0 {
            1
        } else if self.control_h & 3 == 1 {
            2
        } else {
            4
        };
        let channels: [i16; 4] = [
            self.square1.sample(),
            self.square2.sample(),
            self.wave.sample(),
            self.noise.sample(),
        ];
        let mut left: i32 = 0;
        let mut right: i32 = 0;
        let mut index: usize = 0;
        assert(forall|i: int| 0 <= i < 4 ==> #[trigger] channels@[i] == psg_sample(*self, i));
        while index < 4
            invariant
                index <= 4,
                -15 <= channels@[0] <= 15,
                -15 <= channels@[1] <= 15,
                -15 <= channels@[2] <= 15,
                -15 <= channels@[3] <= 15,
                forall|i: int| 0 <= i < 4 ==> #[trigger] channels@[i] == psg_sample(*self, i),
                -1440 * index <= left <= 1440 * index,
                -1440 * index <= right <= 1440 * index,
                left == psg_sum(*self, 8, index as int),
                right == psg_sum(*self, 12, index as int),
            decreases 4 - index,
        {
            let sample = channels[index] as i32 * 96;
            if self.control_l & (1u16 << (8 + index) as u16) != 0 {
                left = left + sample;
            }
            if self.control_l & (1u16 << (12 + index) as u16) != 0 {
                right = right + sample;
            }
            index = index + 1;
        }
        let left_volume = (self.control_l & 7) as i32 + 1;
        let right_volume = ((self.control_l >> 4u16) & 7) as i32 + 1;
        proof {
            lemma_and_le_u16(self.control_l, 7);
            lemma_and_le_u16(self.control_l >> 4u16, 7);
            assert(-5760 * 32 <= left * left_volume * psg_volume <= 5760 * 32) by (nonlinear_arith)
                requires
                    -5760 <= left <= 5760,
                    1 <= left_volume <= 8,
                    1 <= psg_volume <= 4,
            ;
            assert(-5760 * 32 <= right * right_volume * psg_volume <= 5760 * 32)
                by (nonlinear_arith)
                requires
                    -5760 <= right <= 5760,
                    1 <= right_volume <= 8,
                    1 <= psg_volume <= 4,
            ;
        }
        let ghost left_sum = left as int;
        let ghost right_sum = right as int;
        left = left * left_volume * psg_volume / 8 / 4;
        right = right * right_volume * psg_volume / 8 / 4;
        assert(-8000 <= left <= 8000 && -8000 <= right <= 8000);
        let ghost left_base = left as int;
        let ghost right_base = right as int;
        assert(left_base == trunc_div(trunc_div(left_sum * left_volume * psg_volume, 8), 4));
        assert(right_base == trunc_div(trunc_div(right_sum * right_volume * psg_volume, 8), 4));
        let mut channel: usize = 0;
        while channel < 2
            invariant
                channel <= 2,
                -8000 - 16384 * channel <= left <= 8000 + 16384 * channel,
                -8000 - 16384 * channel <= right <= 8000 + 16384 * channel,
                left == left_base + (if channel >= 1 {
                    fifo_part(*self, 0, 9)
                } else {
                    0
                }) + (if channel >= 2 {
                    fifo_part(*self, 1, 9)
                } else {
                    0
                }),
                right == right_base + (if channel >= 1 {
                    fifo_part(*self, 0, 8)
                } else {
                    0
                }) + (if channel >= 2 {
                    fifo_part(*self, 1, 8)
                } else {
                    0
                }),
            decreases 2 - channel,
        {
            let volume: i32 = if self.control_h & (1u16 << (2 + channel) as u16) != 0 {
                4
            } else {
                2
            };
            let sample = self.fifo[channel].current as i32 * volume * 32;
            if self.control_h & (1u16 << (8 + channel * 4) as u16) != 0 {
                right = right + sample;
            }
            if self.control_h & (1u16 << (9 + channel * 4) as u16) != 0 {
                left = left + sample;
            }
            channel = channel + 1;
        }
        let left = if left < -32768 {
            -32768
        } else if left > 32767 {
            32767
        } else {
            left
        };
        let right = if right < -32768 {
            -32768
        } else if right > 32767 {
            32767
        } else {
            right
        };
        (left as i16, right as i16)
    }

    /// What a read of a sound register returns. Channel settings that are
    /// write-only read as zero; wave RAM reads the bank not being played.
    pub open spec fn register_value(&self, address: usize) -> u16 {
        if address == 0x60 {
            ((self.square1.sweep_period as u16) << 4u16) | (if self.square1.sweep_decrease {
                8u16
            } else {
                0u16
            }) | self.square1.sweep_shift as u16
        } else if address == 0x62 {
            ((self.square1.duty as u16) << 6u16) | ((self.square1.envelope.initial as u16) << 12u16)
        } else if address == 0x68 {
            ((self.square2.duty as u16) << 6u16) | ((self.square2.envelope.initial as u16) << 12u16)
        } else if address == 0x70 {
            (if self.wave.enabled {
                0x80u16
            } else {
                0u16
            }) | (if self.wave.two_banks {
                0x20u16
            } else {
                0u16
            })
        } else if address == 0x80 {
            self.control_l
        } else if address == 0x82 {
            self.control_h
        } else if address == 0x84 {
            (self.control_x & 0x80) | (if self.square1.enabled {
                1u16
            } else {
                0u16
            }) | (if self.square2.enabled {
                2u16
            } else {
                0u16
            }) | (if self.wave.playing {
                4u16
            } else {
                0u16
            }) | (if self.noise.enabled {
                8u16
            } else {
                0u16
            })
        } else if address == 0x88 {
            self.bias
        } else if 0x90 <= address <= 0x9f {
            let base = (1 - self.wave.bank) * 16 + (address - 0x90);
            (self.wave.banks@[base] as u16) | ((self.wave.banks@[base + 1] as u16) << 8u16)
        } else {
            0
        }
    }

    /// Reads a sound register.
    pub fn read_register(&self, address: usize) -> (value: u16)
        requires
            self.wf(),
            address != 0x9f,
        ensures
            value == self.register_value(address),
            address == 0x80 ==> value == self.control_l,
            address == 0x82 ==> value == self.control_h,
            address == 0x88 ==> value == self.bias,
            0x90 <= address <= 0x9f ==> {
                let base = (1 - self.wave.bank) * 16 + (address - 0x90);
                value == (self.wave.banks@[base] as u16) | ((self.wave.banks@[base + 1] as u16)
                    << 8u16)
            },
            !(address == 0x60 || address == 0x62 || address == 0x68 || address == 0x70 || address
                == 0x80 || address == 0x82 || address == 0x84 || address == 0x88 || 0x90 <= address
                <= 0x9f) ==> value == 0,
    {
        if address == 0x60 {
            ((self.square1.sweep_period as u16) << 4u16) | (if self.square1.sweep_decrease {
                8
            } else {
                0
            }) | self.square1.sweep_shift as u16
        } else if address == 0x62 {
            ((self.square1.duty as u16) << 6u16) | ((self.square1.envelope.initial as u16) << 12u16)
        } else if address == 0x68 {
            ((self.square2.duty as u16) << 6u16) | ((self.square2.envelope.initial as u16) << 12u16)
        } else if address == 0x70 {
            (if self.wave.enabled {
                0x80
            } else {
                0
            }) | (if self.wave.two_banks {
                0x20
            } else {
                0
            })
        } else if address == 0x80 {
            self.control_l
        } else if address == 0x82 {
            self.control_h
        } else if address == 0x84 {
            (self.control_x & 0x80) | (if self.square1.enabled {
                1
            } else {
                0
            }) | (if self.square2.enabled {
                2
            } else {
                0
            }) | (if self.wave.playing {
                4
            } else {
                0
            }) | (if self.noise.enabled {
                8
            } else {
                0
            })
        } else if address == 0x88 {
            self.bias
        } else if 0x90 <= address && address <= 0x9f {
            let base = (1 - self.wave.bank) * 16 + (address - 0x90);
            (self.wave.banks[base] as u16) | ((self.wave.banks[base + 1] as u16) << 8u16)
        } else {
            0
        }
    }

    /// Writes one of the tone, wave and noise channel registers.
    #[verifier::spinoff_prover]
    #[verifier::rlimit(100)]
    fn write_psg(&mut self, address: usize, value: u16)
        requires
            old(self).wf(),
            0x60 <= address <= 0x7e,
        ensures
            final(self).wf(),
            sound_register_written(*old(self), *final(self), address as int, value),
            final(self).buffer == old(self).buffer,
            final(self).fifo == old(self).fifo,
            final(self).control_l == old(self).control_l,
            final(self).control_h == old(self).control_h,
            final(self).control_x == old(self).control_x,
            final(self).bias == old(self).bias,
            final(self).sample_timer == old(self).sample_timer,
            final(self).sequencer_timer == old(self).sequencer_timer,
            final(self).sequencer_step == old(self).sequencer_step,
    {
        proof {
            lemma_and_le_u16(value >> 4u16, 7);
            lemma_and_le_u16(value, 7);
            lemma_and_le_u16(value >> 6u16, 3);
            lemma_and_le_u16(value >> 8u16, 7);
            lemma_and_le_u16(value >> 12u16, 0xf);
            lemma_and_le_u16(value, 0x7ff);
            lemma_and_le_u16(value, 0x3f);
            lemma_and_le_u16(value, 0xff);
            lemma_and_le_u16(value >> 6u16, 1);
            lemma_and_le_u16(value >> 13u16, 3);
            lemma_and_le_u16(value >> 4u16, 0xf);
        }
        if address == 0x60 {
            self.square1.sweep_period = ((value >> 4u16) & 7) as u8;
            self.square1.sweep_decrease = value & 8 != 0;
            self.square1.sweep_shift = (value & 7) as u8;
        } else if address == 0x62 {
            write_square_duty(&mut self.square1, value);
        } else if address == 0x64 {
            write_square_frequency(&mut self.square1, value);
        } else if address == 0x68 {
            write_square_duty(&mut self.square2, value);
        } else if address == 0x6c {
            write_square_frequency(&mut self.square2, value);
        } else if address == 0x70 {
            self.wave.two_banks = value & 0x20 != 0;
            self.wave.bank = ((value >> 6u16) & 1) as usize;
            self.wave.enabled = value & 0x80 != 0;
            if !self.wave.enabled {
                self.wave.playing = false;
            }
        } else if address == 0x72 {
            self.wave.length = 256 - (value & 0xff);
            self.wave.volume = ((value >> 13u16) & 3) as u8;
            self.wave.force_75 = value & 0x8000 != 0;
        } else if address == 0x74 {
            self.wave.frequency = value & 0x7ff;
            self.wave.length_enabled = value & 0x4000 != 0;
            if value & 0x8000 != 0 {
                self.wave.trigger();
            }
        } else if address == 0x78 {
            write_noise_envelope(&mut self.noise, value);
        } else if address == 0x7c {
            write_noise_frequency(&mut self.noise, value);
        }
    }

    /// Writes a sound register.
    #[verifier::spinoff_prover]
    #[verifier::rlimit(100)]
    pub fn write_register(&mut self, address: usize, value: u16)
        requires
            old(self).wf(),
            address != 0x9f,
        ensures
            final(self).wf(),
            final(self).buffer == old(self).buffer,
            address == 0x80 ==> final(self).control_l == value,
            address != 0x80 ==> final(self).control_l == old(self).control_l,
            address == 0x82 ==> final(self).control_h == value & 0x770f,
            address != 0x82 ==> final(self).control_h == old(self).control_h,
            address == 0x84 ==> final(self).control_x == value & 0x80,
            address != 0x84 ==> final(self).control_x == old(self).control_x,
            address == 0x88 ==> final(self).bias == value,
            address != 0x88 ==> final(self).bias == old(self).bias,
            address == 0x82 && value & 0x0800 != 0 ==> final(self).fifo[0].queued().len() == 0,
            address == 0x82 && value & 0x8000 != 0 ==> final(self).fifo[1].queued().len() == 0,
            address != 0x82 ==> final(self).fifo == old(self).fifo,
            sound_register_written(*old(self), *final(self), address as int, value),
    {
        if 0x60 <= address && address <= 0x7e {
            self.write_psg(address, value);
        } else if address == 0x80 {
            self.control_l = value;
        } else if address == 0x82 {
            self.control_h = value & 0x770f;
            if value & 0x0800 != 0 {
                self.fifo[0].clear();
            }
            if value & 0x8000 != 0 {
                self.fifo[1].clear();
            }
        } else if address == 0x84 {
            self.control_x = value & 0x80;
            if value & 0x80 == 0 {
                self.square1.enabled = false;
                self.square2.enabled = false;
                self.wave.playing = false;
                self.noise.enabled = false;
            }
        } else if address == 0x88 {
            self.bias = value;
        } else if 0x90 <= address && address <= 0x9f {
            let base = (1 - self.wave.bank) * 16 + (address - 0x90);
            self.wave.banks[base] = value as u8;
            self.wave.banks[base + 1] = (value >> 8u16) as u8;
        }
    }
}


/// Writes a square channel's length, duty and envelope register.
#[verifier::spinoff_prover]
#[verifier::rlimit(50)]
fn write_square_duty(square: &mut Square, value: u16)
    requires
        old(square).wf(),
    ensures
        final(square).wf(),
        *final(square) == square_duty_written(*old(square), value),
{
    proof {
        lemma_and_le_u16(value >> 6u16, 3);
        lemma_and_le_u16(value >> 8u16, 7);
        lemma_and_le_u16(value >> 12u16, 0xf);
        lemma_and_le_u16(value, 0x3f);
    }
    square.length = 64 - (value & 0x3f);
    square.duty = ((value >> 6u16) & 3) as usize;
    square.envelope.period = ((value >> 8u16) & 7) as u8;
    square.envelope.increase = value & 0x800 != 0;
    square.envelope.initial = ((value >> 12u16) & 0xf) as u8;
    square.envelope.volume = square.envelope.initial;
    if value & 0xf800 == 0 {
        square.enabled = false;
    }
}

/// Writes a square channel's frequency register; bit 15 restarts it.
#[verifier::spinoff_prover]
#[verifier::rlimit(50)]
fn write_square_frequency(square: &mut Square, value: u16)
    requires
        old(square).wf(),
    ensures
        final(square).wf(),
        *final(square) == square_frequency_written(*old(square), value),
{
    proof {
        lemma_and_le_u16(value, 0x7ff);
    }
    square.frequency = value & 0x7ff;
    square.length_enabled = value & 0x4000 != 0;
    if value & 0x8000 != 0 {
        square.trigger();
    }
}

/// Writes the noise channel's length and envelope register.
#[verifier::spinoff_prover]
#[verifier::rlimit(50)]
fn write_noise_envelope(noise: &mut Noise, value: u16)
    requires
        old(noise).wf(),
    ensures
        final(noise).wf(),
        *final(noise) == noise_envelope_written(*old(noise), value),
{
    proof {
        lemma_and_le_u16(value >> 8u16, 7);
        lemma_and_le_u16(value >> 12u16, 0xf);
        lemma_and_le_u16(value, 0x3f);
    }
    noise.length = 64 - (value & 0x3f);
    noise.envelope.period = ((value >> 8u16) & 7) as u8;
    noise.envelope.increase = value & 0x800 != 0;
    noise.envelope.initial = ((value >> 12u16) & 0xf) as u8;
    noise.envelope.volume = noise.envelope.initial;
    if value & 0xf800 == 0 {
        noise.enabled = false;
    }
}

/// Writes the noise channel's frequency register; bit 15 restarts it.
#[verifier::spinoff_prover]
#[verifier::rlimit(50)]
fn write_noise_frequency(noise: &mut Noise, value: u16)
    requires
        old(noise).wf(),
    ensures
        final(noise).wf(),
        *final(noise) == noise_frequency_written(*old(noise), value),
{
    proof {
        lemma_and_le_u16(value, 7);
        lemma_and_le_u16(value >> 4u16, 0xf);
    }
    noise.divisor = (value & 7) as u8;
    noise.width7 = value & 8 != 0;
    noise.shift = ((value >> 4u16) & 0xf) as u8;
    noise.length_enabled = value & 0x4000 != 0;
    if value & 0x8000 != 0 {
        noise.trigger();
    }
}

// ------------------------------------------------------------ save states

/// Refuses a state whose value breaks a channel's invariant.
fn check(valid: bool) -> (result: Result<(), StateError>)
    ensures
        result is Ok <==> valid,
        result is Err ==> result->Err_0 is NotAState,
{
    if valid {
        Ok(())
    } else {
        Err(StateError::NotAState)
    }
}

// The bytes each part is saved as, followed by `rest`.

pub open spec fn envelope_then(e: Envelope, rest: Seq<u8>) -> Seq<u8> {
    seq![e.initial] + (seq![bool_byte(e.increase)] + (seq![e.period] + (seq![e.volume] + (seq![
        e.timer,
    ] + rest))))
}

pub open spec fn square_then(s: Square, rest: Seq<u8>) -> Seq<u8> {
    seq![bool_byte(s.enabled)] + (le16(s.frequency) + (le32(s.timer as u32) + (le32(
        s.phase as u32,
    ) + (le32(s.duty as u32) + (le16(s.length) + (seq![bool_byte(s.length_enabled)]
        + envelope_then(s.envelope, sweep_then(s, rest))))))))
}

pub open spec fn sweep_then(s: Square, rest: Seq<u8>) -> Seq<u8> {
    seq![s.sweep_period] + (seq![bool_byte(s.sweep_decrease)] + (seq![s.sweep_shift] + (seq![
        s.sweep_timer,
    ] + (seq![bool_byte(s.sweep_enabled)] + (le16(s.sweep_shadow) + rest)))))
}

pub open spec fn wave_then(w: Wave, rest: Seq<u8>) -> Seq<u8> {
    seq![bool_byte(w.enabled)] + (seq![bool_byte(w.playing)] + (block_bytes(w.banks@) + (le32(
        w.bank as u32,
    ) + (seq![bool_byte(w.two_banks)] + (le32(w.position as u32) + (le16(w.frequency) + (le32(
        w.timer as u32,
    ) + (seq![w.volume] + (seq![bool_byte(w.force_75)] + (le16(w.length) + (seq![
        bool_byte(w.length_enabled),
    ] + rest)))))))))))
}

pub open spec fn noise_then(n: Noise, rest: Seq<u8>) -> Seq<u8> {
    seq![bool_byte(n.enabled)] + (le16(n.lfsr) + (le32(n.timer as u32) + (seq![n.divisor] + (seq![
        n.shift,
    ] + (seq![bool_byte(n.width7)] + (le16(n.length) + (seq![bool_byte(n.length_enabled)]
        + envelope_then(n.envelope, rest))))))))
}

/// Samples `i` to 31 of a FIFO, one byte each.
pub open spec fn samples_then(data: [i8; 32], i: int, rest: Seq<u8>) -> Seq<u8>
    decreases 32 - i,
{
    if i >= 32 || i < 0 {
        rest
    } else {
        seq![data[i] as u8] + samples_then(data, i + 1, rest)
    }
}

pub open spec fn fifo_then(f: Fifo, rest: Seq<u8>) -> Seq<u8> {
    samples_then(
        f.data,
        0,
        le32(f.read as u32) + (le32(f.write as u32) + (le32(f.length as u32) + (seq![
            f.current as u8,
        ] + rest))),
    )
}

/// The whole sound unit; the sample buffer waiting for the host is not
/// part of it.
pub open spec fn apu_then(a: &Apu, rest: Seq<u8>) -> Seq<u8> {
    square_then(
        a.square1,
        square_then(
            a.square2,
            wave_then(
                a.wave,
                noise_then(
                    a.noise,
                    fifo_then(
                        a.fifo[0],
                        fifo_then(
                            a.fifo[1],
                            le16(a.control_l) + (le16(a.control_h) + (le16(a.control_x) + (le16(
                                a.bias,
                            ) + (le32(a.sample_timer) + (le32(a.sequencer_timer) + (le32(
                                a.sequencer_step,
                            ) + (seq![bool_byte(a.enabled)] + rest))))))),
                        ),
                    ),
                ),
            ),
        ),
    )
}

impl Apu {
    /// Every field a state holds is the one `saved` has.
    pub open spec fn restored(&self, saved: &Apu) -> bool {
        &&& self.square1 == saved.square1
        &&& self.square2 == saved.square2
        &&& self.wave == saved.wave
        &&& self.noise == saved.noise
        &&& self.fifo == saved.fifo
        &&& self.control_l == saved.control_l
        &&& self.control_h == saved.control_h
        &&& self.control_x == saved.control_x
        &&& self.bias == saved.bias
        &&& self.sample_timer == saved.sample_timer
        &&& self.sequencer_timer == saved.sequencer_timer
        &&& self.sequencer_step == saved.sequencer_step
        &&& self.enabled == saved.enabled
    }
}

/// Samples travel as their two's complement bits.
proof fn lemma_sample_bits(v: i8)
    by (bit_vector)
    ensures
        (v as u8) as i8 == v,
{
}

fn save_envelope(writer: &mut Writer, envelope: &Envelope)
    ensures
        forall|rest: Seq<u8>|
            old(writer).data@ + #[trigger] envelope_then(*envelope, rest) == final(writer).data@ + rest,
{
    let ghost d = writer.data@;
    writer.u8(envelope.initial);
    writer.bool(envelope.increase);
    writer.u8(envelope.period);
    writer.u8(envelope.volume);
    writer.u8(envelope.timer);
    assert forall|rest: Seq<u8>|
        d + #[trigger] envelope_then(*envelope, rest) == writer.data@ + rest by {
    }
}

#[verifier::spinoff_prover]
#[verifier::rlimit(50)]
fn load_envelope(reader: &mut Reader) -> (result: Result<Envelope, StateError>)
    requires
        old(reader).wf(),
    ensures
        final(reader).wf(),
        result is Ok ==> result->Ok_0.wf() && result->Ok_0.initial <= 15,
        forall|saved: Envelope, rest: Seq<u8>| #[trigger]
            old(reader).expects(envelope_then(saved, rest)) && saved.wf() && saved.initial <= 15
                ==> result == Ok::<Envelope, StateError>(saved) && final(reader).expects(rest),
{
    let ghost r0 = *reader;
    let initial = reader.u8()?;
    let ghost r1 = *reader;
    let increase = reader.bool()?;
    let ghost r2 = *reader;
    let period = reader.u8()?;
    let ghost r3 = *reader;
    let volume = reader.u8()?;
    let ghost r4 = *reader;
    let timer = reader.u8()?;
    let read = Envelope { initial, increase, period, volume, timer };
    proof {
        assert forall|saved: Envelope, rest: Seq<u8>| #[trigger]
            r0.expects(envelope_then(saved, rest)) implies read == saved && reader.expects(rest) by {
            assert(r0.expects(seq![saved.initial] + (seq![bool_byte(saved.increase)] + (seq![
                saved.period,
            ] + (seq![saved.volume] + (seq![saved.timer] + rest))))));
            assert(r1.expects(seq![bool_byte(saved.increase)] + (seq![saved.period] + (seq![
                saved.volume,
            ] + (seq![saved.timer] + rest)))));
            assert(r2.expects(seq![saved.period] + (seq![saved.volume] + (seq![saved.timer] + rest))));
            assert(r3.expects(seq![saved.volume] + (seq![saved.timer] + rest)));
            assert(r4.expects(seq![saved.timer] + rest));
        }
    }
    check(initial <= 15 && volume <= 15)?;
    Ok(read)
}

#[verifier::spinoff_prover]
#[verifier::rlimit(50)]
fn save_square(writer: &mut Writer, square: &Square)
    ensures
        forall|rest: Seq<u8>|
            old(writer).data@ + #[trigger] square_then(*square, rest) == final(writer).data@ + rest,
{
    let ghost d = writer.data@;
    writer.bool(square.enabled);
    writer.u16(square.frequency);
    writer.i32(square.timer);
    writer.usize(square.phase);
    writer.usize(square.duty);
    writer.u16(square.length);
    writer.bool(square.length_enabled);
    let ghost middle = writer.data@;
    save_envelope(writer, &square.envelope);
    let ghost after = writer.data@;
    writer.u8(square.sweep_period);
    writer.bool(square.sweep_decrease);
    writer.u8(square.sweep_shift);
    writer.u8(square.sweep_timer);
    writer.bool(square.sweep_enabled);
    writer.u16(square.sweep_shadow);
    assert forall|rest: Seq<u8>|
        d + #[trigger] square_then(*square, rest) == writer.data@ + rest by {
        let sweep = sweep_then(*square, rest);
        assert(middle + envelope_then(square.envelope, sweep) == after + sweep);
    }
}

#[verifier::spinoff_prover]
#[verifier::rlimit(50)]
fn load_square(reader: &mut Reader) -> (result: Result<Square, StateError>)
    requires
        old(reader).wf(),
    ensures
        final(reader).wf(),
        result is Ok ==> result->Ok_0.wf(),
        forall|saved: Square, rest: Seq<u8>| #[trigger]
            old(reader).expects(square_then(saved, rest)) && saved.wf() ==> result == Ok::<
                Square,
                StateError,
            >(saved) && final(reader).expects(rest),
{
    let ghost r0 = *reader;
    let enabled = reader.bool()?;
    let ghost r1 = *reader;
    let frequency = reader.u16()?;
    let ghost r2 = *reader;
    let timer = reader.i32()?;
    let ghost r3 = *reader;
    let phase = reader.usize()?;
    let ghost r4 = *reader;
    let duty = reader.usize()?;
    let ghost r5 = *reader;
    let length = reader.u16()?;
    let ghost r6 = *reader;
    let length_enabled = reader.bool()?;
    let ghost r7 = *reader;
    let envelope = load_envelope(reader);
    let ghost r8 = *reader;
    proof {
        assert forall|saved: Square, rest: Seq<u8>| #[trigger]
            r0.expects(square_then(saved, rest)) && saved.wf() implies enabled == saved.enabled
            && frequency == saved.frequency && timer == saved.timer && phase == saved.phase && duty
            == saved.duty && length == saved.length && length_enabled == saved.length_enabled
            && envelope == Ok::<Envelope, StateError>(saved.envelope) && r8.expects(
            sweep_then(saved, rest),
        ) by {
            let s7 = envelope_then(saved.envelope, sweep_then(saved, rest));
            let s6 = seq![bool_byte(saved.length_enabled)] + s7;
            let s5 = le16(saved.length) + s6;
            let s4 = le32(saved.duty as u32) + s5;
            let s3 = le32(saved.phase as u32) + s4;
            let s2 = le32(saved.timer as u32) + s3;
            let s1 = le16(saved.frequency) + s2;
            assert(r0.expects(seq![bool_byte(saved.enabled)] + s1));
            assert(r1.expects(s1));
            assert(r2.expects(s2));
            assert(r3.expects(s3));
            assert(r4.expects(s4));
            assert(r5.expects(s5));
            assert(r6.expects(s6));
            assert(r7.expects(s7));
        }
    }
    let envelope = envelope?;
    let sweep_period = reader.u8()?;
    let ghost r9 = *reader;
    let sweep_decrease = reader.bool()?;
    let ghost r10 = *reader;
    let sweep_shift = reader.u8()?;
    let ghost r11 = *reader;
    let sweep_timer = reader.u8()?;
    let ghost r12 = *reader;
    let sweep_enabled = reader.bool()?;
    let ghost r13 = *reader;
    let sweep_shadow = reader.u16()?;
    let read = Square {
        enabled,
        frequency,
        timer,
        phase,
        duty,
        length,
        length_enabled,
        envelope,
        sweep_period,
        sweep_decrease,
        sweep_shift,
        sweep_timer,
        sweep_enabled,
        sweep_shadow,
    };
    proof {
        assert forall|saved: Square, rest: Seq<u8>| #[trigger]
            r0.expects(square_then(saved, rest)) && saved.wf() implies read == saved
            && reader.expects(rest) by {
            let s13 = le16(saved.sweep_shadow) + rest;
            let s12 = seq![bool_byte(saved.sweep_enabled)] + s13;
            let s11 = seq![saved.sweep_timer] + s12;
            let s10 = seq![saved.sweep_shift] + s11;
            let s9 = seq![bool_byte(saved.sweep_decrease)] + s10;
            assert(r8.expects(seq![saved.sweep_period] + s9));
            assert(r9.expects(s9));
            assert(r10.expects(s10));
            assert(r11.expects(s11));
            assert(r12.expects(s12));
            assert(r13.expects(s13));
        }
    }
    check(
        frequency <= 2047 && sweep_shadow <= 2047 && phase < 8 && duty < 4 && timer <= 8192
            && sweep_period <= 7 && sweep_shift <= 7,
    )?;
    Ok(read)
}

#[verifier::spinoff_prover]
#[verifier::rlimit(50)]
fn save_wave(writer: &mut Writer, wave: &Wave)
    ensures
        forall|rest: Seq<u8>|
            old(writer).data@ + #[trigger] wave_then(*wave, rest) == final(writer).data@ + rest,
{
    let ghost d = writer.data@;
    writer.bool(wave.enabled);
    writer.bool(wave.playing);
    writer.bytes(wave.banks.as_slice());
    writer.usize(wave.bank);
    writer.bool(wave.two_banks);
    writer.usize(wave.position);
    writer.u16(wave.frequency);
    writer.i32(wave.timer);
    writer.u8(wave.volume);
    writer.bool(wave.force_75);
    writer.u16(wave.length);
    writer.bool(wave.length_enabled);
    assert forall|rest: Seq<u8>|
        d + #[trigger] wave_then(*wave, rest) == writer.data@ + rest by {
    }
}

#[verifier::spinoff_prover]
#[verifier::rlimit(50)]
fn load_wave(reader: &mut Reader, wave: &mut Wave) -> (result: Result<(), StateError>)
    requires
        old(reader).wf(),
    ensures
        final(reader).wf(),
        result is Ok ==> final(wave).wf(),
        result is Err ==> *final(wave) == *old(wave),
        forall|saved: Wave, rest: Seq<u8>| #[trigger]
            old(reader).expects(wave_then(saved, rest)) && saved.wf() ==> result is Ok
                && *final(wave) == saved && final(reader).expects(rest),
{
    let ghost r0 = *reader;
    let enabled = reader.bool()?;
    let ghost r1 = *reader;
    let playing = reader.bool()?;
    let ghost r2 = *reader;
    let mut stored: Vec<u8> = vec![0u8; 32];
    reader.into_bytes(stored.as_mut_slice())?;
    let mut banks: [u8; 32] = [0; 32];
    let mut index: usize = 0;
    while index < 32
        invariant
            index <= 32,
            stored@.len() == 32,
            forall|j: int| 0 <= j < index ==> #[trigger] banks[j] == stored@[j],
        decreases 32 - index,
    {
        banks[index] = stored[index];
        index = index + 1;
    }
    let ghost r3 = *reader;
    let bank = reader.usize()?;
    let ghost r4 = *reader;
    let two_banks = reader.bool()?;
    let ghost r5 = *reader;
    let position = reader.usize()?;
    let ghost r6 = *reader;
    let frequency = reader.u16()?;
    let ghost r7 = *reader;
    let timer = reader.i32()?;
    let ghost r8 = *reader;
    let volume = reader.u8()?;
    let ghost r9 = *reader;
    let force_75 = reader.bool()?;
    let ghost r10 = *reader;
    let length = reader.u16()?;
    let ghost r11 = *reader;
    let length_enabled = reader.bool()?;
    let read = Wave {
        enabled,
        playing,
        banks,
        bank,
        two_banks,
        position,
        frequency,
        timer,
        volume,
        force_75,
        length,
        length_enabled,
    };
    proof {
        assert forall|saved: Wave, rest: Seq<u8>| #[trigger]
            r0.expects(wave_then(saved, rest)) && saved.wf() implies read == saved
            && reader.expects(rest) by {
            let s11 = seq![bool_byte(saved.length_enabled)] + rest;
            let s10 = le16(saved.length) + s11;
            let s9 = seq![bool_byte(saved.force_75)] + s10;
            let s8 = seq![saved.volume] + s9;
            let s7 = le32(saved.timer as u32) + s8;
            let s6 = le16(saved.frequency) + s7;
            let s5 = le32(saved.position as u32) + s6;
            let s4 = seq![bool_byte(saved.two_banks)] + s5;
            let s3 = le32(saved.bank as u32) + s4;
            let s2 = block_bytes(saved.banks@) + s3;
            let s1 = seq![bool_byte(saved.playing)] + s2;
            assert(r0.expects(seq![bool_byte(saved.enabled)] + s1));
            assert(r1.expects(s1));
            assert(r2.expects(s2));
            assert(stored@ == saved.banks@);
            assert(banks =~= saved.banks);
            assert(r3.expects(s3));
            assert(r4.expects(s4));
            assert(r5.expects(s5));
            assert(r6.expects(s6));
            assert(r7.expects(s7));
            assert(r8.expects(s8));
            assert(r9.expects(s9));
            assert(r10.expects(s10));
            assert(r11.expects(s11));
        }
    }
    check(bank <= 1 && position < 32 && frequency <= 2047 && timer <= 4096)?;
    *wave = read;
    Ok(())
}

#[verifier::spinoff_prover]
#[verifier::rlimit(50)]
fn save_noise(writer: &mut Writer, noise: &Noise)
    ensures
        forall|rest: Seq<u8>|
            old(writer).data@ + #[trigger] noise_then(*noise, rest) == final(writer).data@ + rest,
{
    let ghost d = writer.data@;
    writer.bool(noise.enabled);
    writer.u16(noise.lfsr);
    writer.i32(noise.timer);
    writer.u8(noise.divisor);
    writer.u8(noise.shift);
    writer.bool(noise.width7);
    writer.u16(noise.length);
    writer.bool(noise.length_enabled);
    let ghost middle = writer.data@;
    save_envelope(writer, &noise.envelope);
    assert forall|rest: Seq<u8>|
        d + #[trigger] noise_then(*noise, rest) == writer.data@ + rest by {
        assert(middle + envelope_then(noise.envelope, rest) == writer.data@ + rest);
    }
}

#[verifier::spinoff_prover]
#[verifier::rlimit(50)]
fn load_noise(reader: &mut Reader) -> (result: Result<Noise, StateError>)
    requires
        old(reader).wf(),
    ensures
        final(reader).wf(),
        result is Ok ==> result->Ok_0.wf(),
        forall|saved: Noise, rest: Seq<u8>| #[trigger]
            old(reader).expects(noise_then(saved, rest)) && saved.wf() ==> result == Ok::<
                Noise,
                StateError,
            >(saved) && final(reader).expects(rest),
{
    let ghost r0 = *reader;
    let enabled = reader.bool()?;
    let ghost r1 = *reader;
    let lfsr = reader.u16()?;
    let ghost r2 = *reader;
    let timer = reader.i32()?;
    let ghost r3 = *reader;
    let divisor = reader.u8()?;
    let ghost r4 = *reader;
    let shift = reader.u8()?;
    let ghost r5 = *reader;
    let width7 = reader.bool()?;
    let ghost r6 = *reader;
    let length = reader.u16()?;
    let ghost r7 = *reader;
    let length_enabled = reader.bool()?;
    let ghost r8 = *reader;
    let envelope = load_envelope(reader);
    proof {
        assert forall|saved: Noise, rest: Seq<u8>| #[trigger]
            r0.expects(noise_then(saved, rest)) && saved.wf() implies enabled == saved.enabled
            && lfsr == saved.lfsr && timer == saved.timer && divisor == saved.divisor && shift
            == saved.shift && width7 == saved.width7 && length == saved.length && length_enabled
            == saved.length_enabled && envelope == Ok::<Envelope, StateError>(saved.envelope)
            && reader.expects(rest) by {
            let s8 = envelope_then(saved.envelope, rest);
            let s7 = seq![bool_byte(saved.length_enabled)] + s8;
            let s6 = le16(saved.length) + s7;
            let s5 = seq![bool_byte(saved.width7)] + s6;
            let s4 = seq![saved.shift] + s5;
            let s3 = seq![saved.divisor] + s4;
            let s2 = le32(saved.timer as u32) + s3;
            let s1 = le16(saved.lfsr) + s2;
            assert(r0.expects(seq![bool_byte(saved.enabled)] + s1));
            assert(r1.expects(s1));
            assert(r2.expects(s2));
            assert(r3.expects(s3));
            assert(r4.expects(s4));
            assert(r5.expects(s5));
            assert(r6.expects(s6));
            assert(r7.expects(s7));
            assert(r8.expects(s8));
        }
    }
    let envelope = envelope?;
    check(divisor <= 7 && shift <= 15)?;
    Ok(Noise { enabled, lfsr, timer, divisor, shift, width7, length, length_enabled, envelope })
}

#[verifier::spinoff_prover]
#[verifier::rlimit(50)]
fn save_fifo(writer: &mut Writer, fifo: &Fifo)
    ensures
        forall|rest: Seq<u8>|
            old(writer).data@ + #[trigger] fifo_then(*fifo, rest) == final(writer).data@ + rest,
{
    let ghost d = writer.data@;
    let mut index: usize = 0;
    while index < 32
        invariant
            index <= 32,
            forall|rest: Seq<u8>|
                d + samples_then(fifo.data, 0, rest) == writer.data@ + #[trigger] samples_then(
                    fifo.data,
                    index as int,
                    rest,
                ),
        decreases 32 - index,
    {
        let ghost before = writer.data@;
        writer.u8(fifo.data[index] as u8);
        assert forall|rest: Seq<u8>|
            d + samples_then(fifo.data, 0, rest) == writer.data@ + #[trigger] samples_then(
                fifo.data,
                index + 1,
                rest,
            ) by {
            assert(d + samples_then(fifo.data, 0, rest) == before + samples_then(
                fifo.data,
                index as int,
                rest,
            ));
            assert(before + samples_then(fifo.data, index as int, rest) =~= writer.data@
                + samples_then(fifo.data, index + 1, rest));
        }
        index = index + 1;
    }
    let ghost middle = writer.data@;
    writer.usize(fifo.read);
    writer.usize(fifo.write);
    writer.usize(fifo.length);
    writer.u8(fifo.current as u8);
    assert forall|rest: Seq<u8>|
        d + #[trigger] fifo_then(*fifo, rest) == writer.data@ + rest by {
        let tail = le32(fifo.read as u32) + (le32(fifo.write as u32) + (le32(fifo.length as u32)
            + (seq![fifo.current as u8] + rest)));
        assert(d + samples_then(fifo.data, 0, tail) == middle + samples_then(fifo.data, 32, tail));
    }
}

#[verifier::spinoff_prover]
#[verifier::rlimit(50)]
fn load_fifo(reader: &mut Reader, fifo: &mut Fifo) -> (result: Result<(), StateError>)
    requires
        old(reader).wf(),
    ensures
        final(reader).wf(),
        result is Ok ==> final(fifo).wf(),
        result is Err ==> *final(fifo) == *old(fifo),
        forall|saved: Fifo, rest: Seq<u8>| #[trigger]
            old(reader).expects(fifo_then(saved, rest)) && saved.wf() ==> result is Ok
                && *final(fifo) == saved && final(reader).expects(rest),
{
    let ghost r0 = *reader;
    let mut data: [i8; 32] = [0; 32];
    let mut index: usize = 0;
    while index < 32
        invariant
            index <= 32,
            reader.wf(),
            r0 == *old(reader),
            *fifo == *old(fifo),
            forall|saved: Fifo, rest: Seq<u8>| #[trigger]
                r0.expects(fifo_then(saved, rest)) && saved.wf() ==> {
                    &&& reader.expects(
                        samples_then(
                            saved.data,
                            index as int,
                            le32(saved.read as u32) + (le32(saved.write as u32) + (le32(
                                saved.length as u32,
                            ) + (seq![saved.current as u8] + rest))),
                        ),
                    )
                    &&& forall|j: int| 0 <= j < index ==> #[trigger] data[j] == saved.data[j]
                },
        decreases 32 - index,
    {
        let ghost r = *reader;
        let ghost before = data;
        let byte = reader.u8()?;
        data[index] = byte as i8;
        proof {
            assert forall|saved: Fifo, rest: Seq<u8>| #[trigger]
                r0.expects(fifo_then(saved, rest)) && saved.wf() implies {
                &&& reader.expects(
                    samples_then(
                        saved.data,
                        index + 1,
                        le32(saved.read as u32) + (le32(saved.write as u32) + (le32(
                            saved.length as u32,
                        ) + (seq![saved.current as u8] + rest))),
                    ),
                )
                &&& forall|j: int| 0 <= j < index + 1 ==> #[trigger] data[j] == saved.data[j]
            } by {
                let tail = le32(saved.read as u32) + (le32(saved.write as u32) + (le32(
                    saved.length as u32,
                ) + (seq![saved.current as u8] + rest)));
                assert(r.expects(samples_then(saved.data, index as int, tail)));
                assert(r.expects(seq![saved.data[index as int] as u8] + samples_then(
                    saved.data,
                    index + 1,
                    tail,
                )));
                lemma_sample_bits(saved.data[index as int]);
                assert forall|j: int| 0 <= j < index + 1 implies #[trigger] data[j] == saved.data[j] by {
                    if j < index {
                        assert(before[j] == saved.data[j]);
                    }
                }
            }
        }
        index = index + 1;
    }
    let ghost r1 = *reader;
    let read = reader.usize()?;
    let ghost r2 = *reader;
    let write = reader.usize()?;
    let ghost r3 = *reader;
    let length = reader.usize()?;
    let ghost r4 = *reader;
    let current = reader.u8()? as i8;
    let loaded = Fifo { data, read, write, length, current };
    proof {
        assert forall|saved: Fifo, rest: Seq<u8>| #[trigger]
            r0.expects(fifo_then(saved, rest)) && saved.wf() implies loaded == saved
            && reader.expects(rest) by {
            let s4 = seq![saved.current as u8] + rest;
            let s3 = le32(saved.length as u32) + s4;
            let s2 = le32(saved.write as u32) + s3;
            assert(r1.expects(samples_then(saved.data, 32, le32(saved.read as u32) + s2)));
            assert(r1.expects(le32(saved.read as u32) + s2));
            assert(r2.expects(s2));
            assert(r3.expects(s3));
            assert(r4.expects(s4));
            lemma_sample_bits(saved.current);
            assert(data =~= saved.data);
        }
    }
    check(read < 32 && write < 32 && length <= 32 && write == (read + length) % 32)?;
    *fifo = loaded;
    Ok(())
}

impl Snapshot for Apu {
    /// Saves every channel and register; the sample buffer waiting for the
    /// host is not part of the machine and is left out.
    fn save(&self, writer: &mut Writer)
        ensures
            forall|rest: Seq<u8>|
                old(writer).data@ + #[trigger] apu_then(self, rest) == final(writer).data@ + rest,
    {
        let ghost d0 = writer.data@;
        save_square(writer, &self.square1);
        let ghost d1 = writer.data@;
        save_square(writer, &self.square2);
        let ghost d2 = writer.data@;
        save_wave(writer, &self.wave);
        let ghost d3 = writer.data@;
        save_noise(writer, &self.noise);
        let ghost d4 = writer.data@;
        save_fifo(writer, &self.fifo[0]);
        let ghost d5 = writer.data@;
        save_fifo(writer, &self.fifo[1]);
        let ghost d6 = writer.data@;
        writer.u16(self.control_l);
        writer.u16(self.control_h);
        writer.u16(self.control_x);
        writer.u16(self.bias);
        writer.u32(self.sample_timer);
        writer.u32(self.sequencer_timer);
        writer.u32(self.sequencer_step);
        writer.bool(self.enabled);
        assert forall|rest: Seq<u8>|
            d0 + #[trigger] apu_then(self, rest) == writer.data@ + rest by {
            let t6 = le16(self.control_l) + (le16(self.control_h) + (le16(self.control_x) + (le16(
                self.bias,
            ) + (le32(self.sample_timer) + (le32(self.sequencer_timer) + (le32(
                self.sequencer_step,
            ) + (seq![bool_byte(self.enabled)] + rest)))))));
            let t5 = fifo_then(self.fifo[1], t6);
            let t4 = fifo_then(self.fifo[0], t5);
            let t3 = noise_then(self.noise, t4);
            let t2 = wave_then(self.wave, t3);
            let t1 = square_then(self.square2, t2);
            assert(d0 + square_then(self.square1, t1) == d1 + t1);
            assert(d1 + t1 == d2 + t2);
            assert(d2 + t2 == d3 + t3);
            assert(d3 + t3 == d4 + t4);
            assert(d4 + t4 == d5 + t5);
            assert(d5 + t5 == d6 + t6);
        }
    }

    /// Loads every channel, refusing values that break a channel's
    /// invariant; nothing changes unless the whole unit loads.
    #[verifier::spinoff_prover]
    #[verifier::rlimit(100)]
    fn load(&mut self, reader: &mut Reader) -> (result: Result<(), StateError>)
        ensures
            result is Ok ==> final(self).wf(),
            result is Err ==> *final(self) == *old(self),
            final(self).buffer == old(self).buffer,
            forall|saved: Apu, rest: Seq<u8>| #[trigger]
                old(reader).expects(apu_then(&saved, rest)) && saved.wf() ==> result is Ok
                    && final(self).restored(&saved) && final(reader).expects(rest),
    {
        let ghost r0 = *reader;
        let square1 = load_square(reader);
        let ghost r1 = *reader;
        proof {
            assert forall|saved: Apu, rest: Seq<u8>| #[trigger]
                r0.expects(apu_then(&saved, rest)) && saved.wf() implies square1 == Ok::<
                Square,
                StateError,
            >(saved.square1) && r1.expects(apu_after_square1(&saved, rest)) by {
                assert(r0.expects(square_then(saved.square1, apu_after_square1(&saved, rest))));
            }
        }
        let square1 = square1?;
        let square2 = load_square(reader);
        let ghost r2 = *reader;
        proof {
            assert forall|saved: Apu, rest: Seq<u8>| #[trigger]
                r0.expects(apu_then(&saved, rest)) && saved.wf() implies square2 == Ok::<
                Square,
                StateError,
            >(saved.square2) && r2.expects(apu_after_square2(&saved, rest)) by {
                assert(r1.expects(apu_after_square1(&saved, rest)));
            }
        }
        let square2 = square2?;
        let mut wave = self.wave;
        let waved = load_wave(reader, &mut wave);
        let ghost r3 = *reader;
        proof {
            assert forall|saved: Apu, rest: Seq<u8>| #[trigger]
                r0.expects(apu_then(&saved, rest)) && saved.wf() implies waved is Ok && wave
                == saved.wave && r3.expects(apu_after_wave(&saved, rest)) by {
                assert(r2.expects(apu_after_square2(&saved, rest)));
            }
        }
        waved?;
        let noise = load_noise(reader);
        let ghost r4 = *reader;
        proof {
            assert forall|saved: Apu, rest: Seq<u8>| #[trigger]
                r0.expects(apu_then(&saved, rest)) && saved.wf() implies noise == Ok::<
                Noise,
                StateError,
            >(saved.noise) && r4.expects(apu_after_noise(&saved, rest)) by {
                assert(r3.expects(apu_after_wave(&saved, rest)));
            }
        }
        let noise = noise?;
        let mut first = self.fifo[0];
        let firsted = load_fifo(reader, &mut first);
        let ghost r5 = *reader;
        proof {
            assert forall|saved: Apu, rest: Seq<u8>| #[trigger]
                r0.expects(apu_then(&saved, rest)) && saved.wf() implies firsted is Ok && first
                == saved.fifo[0] && r5.expects(fifo_then(saved.fifo[1], apu_registers_then(&saved, rest))) by {
                assert(r4.expects(apu_after_noise(&saved, rest)));
            }
        }
        firsted?;
        let mut second = self.fifo[1];
        let seconded = load_fifo(reader, &mut second);
        let ghost r6 = *reader;
        proof {
            assert forall|saved: Apu, rest: Seq<u8>| #[trigger]
                r0.expects(apu_then(&saved, rest)) && saved.wf() implies seconded is Ok && second
                == saved.fifo[1] && r6.expects(apu_registers_then(&saved, rest)) by {
                assert(r5.expects(fifo_then(saved.fifo[1], apu_registers_then(&saved, rest))));
            }
        }
        seconded?;
        let registers = read_apu_registers(reader);
        proof {
            assert forall|saved: Apu, rest: Seq<u8>| #[trigger]
                r0.expects(apu_then(&saved, rest)) && saved.wf() implies registers == Ok::<
                ApuRegisters,
                StateError,
            >(apu_registers_of(&saved)) && reader.expects(rest) by {
                assert(r6.expects(apu_registers_then(&saved, rest)));
            }
        }
        let registers = registers?;
        check(
            registers.sample_timer < CYCLES_PER_SAMPLE && registers.sequencer_timer
                < SEQUENCER_PERIOD && registers.sequencer_step < 8,
        )?;
        self.square1 = square1;
        self.square2 = square2;
        self.wave = wave;
        self.noise = noise;
        self.fifo = [first, second];
        self.control_l = registers.control_l;
        self.control_h = registers.control_h;
        self.control_x = registers.control_x;
        self.bias = registers.bias;
        self.sample_timer = registers.sample_timer;
        self.sequencer_timer = registers.sequencer_timer;
        self.sequencer_step = registers.sequencer_step;
        self.enabled = registers.enabled;
        proof {
            assert forall|saved: Apu, rest: Seq<u8>| #[trigger]
                r0.expects(apu_then(&saved, rest)) && saved.wf() implies self.restored(&saved) by {
                assert(self.fifo =~= saved.fifo);
            }
        }
        Ok(())
    }
}

pub open spec fn apu_after_square1(a: &Apu, rest: Seq<u8>) -> Seq<u8> {
    square_then(a.square2, apu_after_square2(a, rest))
}

pub open spec fn apu_after_square2(a: &Apu, rest: Seq<u8>) -> Seq<u8> {
    wave_then(a.wave, apu_after_wave(a, rest))
}

pub open spec fn apu_after_wave(a: &Apu, rest: Seq<u8>) -> Seq<u8> {
    noise_then(a.noise, apu_after_noise(a, rest))
}

pub open spec fn apu_after_noise(a: &Apu, rest: Seq<u8>) -> Seq<u8> {
    fifo_then(a.fifo[0], fifo_then(a.fifo[1], apu_registers_then(a, rest)))
}

pub open spec fn apu_registers_then(a: &Apu, rest: Seq<u8>) -> Seq<u8> {
    le16(a.control_l) + (le16(a.control_h) + (le16(a.control_x) + (le16(a.bias) + (le32(
        a.sample_timer,
    ) + (le32(a.sequencer_timer) + (le32(a.sequencer_step) + (seq![bool_byte(a.enabled)]
        + rest)))))))
}

/// The control registers and sequencer of the sound unit.
pub struct ApuRegisters {
    pub control_l: u16,
    pub control_h: u16,
    pub control_x: u16,
    pub bias: u16,
    pub sample_timer: u32,
    pub sequencer_timer: u32,
    pub sequencer_step: u32,
    pub enabled: bool,
}

pub open spec fn apu_registers_of(a: &Apu) -> ApuRegisters {
    ApuRegisters {
        control_l: a.control_l,
        control_h: a.control_h,
        control_x: a.control_x,
        bias: a.bias,
        sample_timer: a.sample_timer,
        sequencer_timer: a.sequencer_timer,
        sequencer_step: a.sequencer_step,
        enabled: a.enabled,
    }
}

#[verifier::spinoff_prover]
#[verifier::rlimit(50)]
fn read_apu_registers(reader: &mut Reader) -> (result: Result<ApuRegisters, StateError>)
    requires
        old(reader).wf(),
    ensures
        final(reader).wf(),
        forall|saved: Apu, rest: Seq<u8>| #[trigger]
            old(reader).expects(apu_registers_then(&saved, rest)) ==> result == Ok::<
                ApuRegisters,
                StateError,
            >(apu_registers_of(&saved)) && final(reader).expects(rest),
{
    let ghost r0 = *reader;
    let control_l = reader.u16()?;
    let ghost r1 = *reader;
    let control_h = reader.u16()?;
    let ghost r2 = *reader;
    let control_x = reader.u16()?;
    let ghost r3 = *reader;
    let bias = reader.u16()?;
    let ghost r4 = *reader;
    let sample_timer = reader.u32()?;
    let ghost r5 = *reader;
    let sequencer_timer = reader.u32()?;
    let ghost r6 = *reader;
    let sequencer_step = reader.u32()?;
    let ghost r7 = *reader;
    let enabled = reader.bool()?;
    let read = ApuRegisters {
        control_l,
        control_h,
        control_x,
        bias,
        sample_timer,
        sequencer_timer,
        sequencer_step,
        enabled,
    };
    proof {
        assert forall|saved: Apu, rest: Seq<u8>| #[trigger]
            r0.expects(apu_registers_then(&saved, rest)) implies read == apu_registers_of(&saved)
            && reader.expects(rest) by {
            let s7 = seq![bool_byte(saved.enabled)] + rest;
            let s6 = le32(saved.sequencer_step) + s7;
            let s5 = le32(saved.sequencer_timer) + s6;
            let s4 = le32(saved.sample_timer) + s5;
            let s3 = le16(saved.bias) + s4;
            let s2 = le16(saved.control_x) + s3;
            let s1 = le16(saved.control_h) + s2;
            assert(r0.expects(le16(saved.control_l) + s1));
            assert(r1.expects(s1));
            assert(r2.expects(s2));
            assert(r3.expects(s3));
            assert(r4.expects(s4));
            assert(r5.expects(s5));
            assert(r6.expects(s6));
            assert(r7.expects(s7));
        }
    }
    Ok(read)
}

} // verus!
