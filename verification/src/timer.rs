//! The four hardware timers, including cascade mode.

use crate::state::{from_le16, from_le32, le16, le32, Reader, Snapshot, StateError, Writer};
use vstd::prelude::*;

verus! {

/// How far the prescaler shifts the system clock: /1, /64, /256, /1024.
pub open spec fn prescaler_shift(control: u16) -> u64 {
    let select = control & 3;
    if select == 0 {
        0
    } else if select == 1 {
        6
    } else if select == 2 {
        8
    } else {
        10
    }
}

fn prescaler_shift_exec(control: u16) -> (shift: u64)
    ensures
        shift == prescaler_shift(control),
        shift <= 10,
{
    let select = control & 3;
    if select == 0 {
        0
    } else if select == 1 {
        6
    } else if select == 2 {
        8
    } else {
        10
    }
}

#[derive(Clone, Copy)]
pub struct Timer {
    pub counter: u16,
    pub reload: u16,
    pub control: u16,
    /// Cycles accumulated below the prescaler threshold.
    pub residue: u32,
}

impl Timer {
    pub open spec fn is_enabled(self) -> bool {
        self.control & 0x80 != 0
    }

    pub open spec fn is_cascade(self) -> bool {
        self.control & 0x04 != 0
    }

    pub open spec fn raises_irq(self) -> bool {
        self.control & 0x40 != 0
    }

    /// Cycles accumulated below the prescaler threshold.
    pub closed spec fn pending(self) -> u32 {
        self.residue
    }

    fn enabled(&self) -> (r: bool)
        ensures
            r == self.is_enabled(),
    {
        self.control & 0x80 != 0
    }

    fn cascade(&self) -> (r: bool)
        ensures
            r == self.is_cascade(),
    {
        self.control & 0x04 != 0
    }

    fn irq(&self) -> (r: bool)
        ensures
            r == self.raises_irq(),
    {
        self.control & 0x40 != 0
    }
}

/// Counting a 16 bit timer up by `increments`: the new counter and how
/// many times it overflowed. An overflow reloads rather than wrapping to
/// zero, so the period after the first overflow is `0x10000 - reload`.
pub open spec fn count_up(counter: u16, reload: u16, increments: int) -> (u16, int) {
    let total = counter + increments;
    if total > 0xffff {
        let period = 0x1_0000 - reload;
        let excess = total - 0x1_0000;
        ((reload + excess % period) as u16, excess / period + 1)
    } else {
        (total as u16, 0)
    }
}

/// One timer advanced by `cycles`, with `carried` overflows arriving from
/// the previous timer: the new timer and how often it overflowed.
pub open spec fn channel_step(timer: Timer, cycles: u32, index: int, carried: int) -> (Timer, int) {
    if !timer.is_enabled() {
        (timer, 0)
    } else {
        let counted = if timer.is_cascade() && index > 0 {
            (timer, carried)
        } else {
            let total = (timer.residue + cycles) as u64;
            let shift = prescaler_shift(timer.control);
            let steps = total >> shift;
            let rest = total & (((1u64 << shift) - 1) as u64);
            (Timer { residue: rest as u32, ..timer }, steps as int)
        };
        let stepped = counted.0;
        let increments = counted.1;
        if increments == 0 {
            (stepped, 0)
        } else {
            let (counter, overflows) = count_up(stepped.counter, stepped.reload, increments);
            (Timer { counter, ..stepped }, overflows)
        }
    }
}

/// The timers from `index` on advanced by `cycles`, accumulating the IRQ
/// bits and FIFO clocks raised so far.
pub open spec fn tick_from(
    channel: Seq<Timer>,
    cycles: u32,
    index: int,
    carried: int,
    irq: u16,
    fifo: u8,
) -> (Seq<Timer>, u16, u8)
    decreases 4 - index,
{
    if index >= 4 || index < 0 {
        (channel, irq, fifo)
    } else {
        let (timer, overflows) = channel_step(channel[index], cycles, index, carried);
        let irq2 = if overflows > 0 && timer.raises_irq() {
            irq | (1u16 << (3 + index) as u16)
        } else {
            irq
        };
        let fifo2 = if overflows > 0 && index < 2 {
            fifo | (1u8 << index as u8)
        } else {
            fifo
        };
        tick_from(channel.update(index, timer), cycles, index + 1, overflows, irq2, fifo2)
    }
}

/// Cycles until timer `index` overflows on its own clock, if it runs on
/// it. Cascade only applies from the second timer on: the first always
/// counts cycles.
pub open spec fn overflow_wait(timer: Timer, index: int) -> Option<u32> {
    if !timer.is_enabled() || (timer.is_cascade() && index > 0) {
        None
    } else {
        let remaining = (0x1_0000 - timer.counter) * vstd::arithmetic::power2::pow2(
            prescaler_shift(timer.control) as nat,
        );
        let wait = if remaining > timer.residue {
            remaining - timer.residue
        } else {
            0
        };
        Some(if wait < 1 { 1u32 } else { wait as u32 })
    }
}

/// Waiting `overflow_wait` cycles overflows a timer that counts cycles, and
/// one cycle fewer does not: the wait is exactly the soonest overflow, for a
/// timer whose prescaler residue is below its period, as `tick` leaves it.
pub proof fn law_overflow_wait_is_soonest(timer: Timer, index: int, carried: int)
    requires
        0 <= index < 4,
        overflow_wait(timer, index) is Some,
        timer.residue < vstd::arithmetic::power2::pow2(prescaler_shift(timer.control) as nat),
    ensures
        overflow_wait(timer, index)->0 >= 1,
        channel_step(timer, (overflow_wait(timer, index)->0 - 1) as u32, index, carried).1 == 0,
        channel_step(timer, overflow_wait(timer, index)->0, index, carried).1 >= 1,
{
    let shift = prescaler_shift(timer.control);
    let p: int = vstd::arithmetic::power2::pow2(shift as nat) as int;
    vstd::arithmetic::power2::lemma2_to64();
    assert(1 <= p <= 1024);
    let k: int = 0x1_0000 - timer.counter;
    let r: int = timer.residue as int;
    assert(k * p >= p) by (nonlinear_arith)
        requires
            k >= 1,
            p >= 1,
    ;
    assert(k * p <= 0x1_0000 * 1024) by (nonlinear_arith)
        requires
            1 <= k <= 0x1_0000,
            1 <= p <= 1024,
    ;
    let wait = overflow_wait(timer, index)->0;
    assert(wait == k * p - r);
    let full = (timer.residue + wait) as u64;
    assert(full == k * p);
    vstd::bits::lemma_u64_shr_is_div(full, shift);
    assert((k * p) / p == k) by (nonlinear_arith)
        requires
            p >= 1,
    ;
    let short = (timer.residue + (wait - 1) as u32) as u64;
    assert(short == k * p - 1);
    vstd::bits::lemma_u64_shr_is_div(short, shift);
    assert((k * p - 1) / p == k - 1) by (nonlinear_arith)
        requires
            p >= 1,
            k >= 1,
    ;
}

/// The soonest overflow among the timers from `index` on, or `u32::MAX`.
pub open spec fn soonest_from(channel: Seq<Timer>, index: int) -> u32
    decreases 4 - index,
{
    if index >= 4 || index < 0 {
        u32::MAX
    } else {
        let rest = soonest_from(channel, index + 1);
        match overflow_wait(channel[index], index) {
            Some(wait) => if wait < rest { wait } else { rest },
            None => rest,
        }
    }
}

pub struct Timers {
    pub channel: [Timer; 4],
}

impl Default for Timers {
    fn default() -> (timers: Self)
        ensures
            forall|i: int|
                0 <= i < 4 ==> (#[trigger] timers.channel@[i]).counter == 0
                    && timers.channel@[i].reload == 0 && timers.channel@[i].control == 0
                    && timers.channel@[i].pending() == 0,
    {
        let idle = Timer { counter: 0, reload: 0, control: 0, residue: 0 };
        Timers { channel: [idle, idle, idle, idle] }
    }
}

impl Timers {
    /// The counter (`half` zero) or the control register of a timer.
    pub fn read(&self, index: usize, half: usize) -> (value: u16)
        requires
            index < 4,
        ensures
            value == if half == 0 {
                self.channel@[index as int].counter
            } else {
                self.channel@[index as int].control
            },
    {
        if half == 0 {
            self.channel[index].counter
        } else {
            self.channel[index].control
        }
    }

    pub fn write_reload(&mut self, index: usize, value: u16)
        requires
            index < 4,
        ensures
            final(self).channel@ == old(self).channel@.update(
                index as int,
                Timer { reload: value, ..old(self).channel@[index as int] },
            ),
    {
        self.channel[index].reload = value;
    }

    /// Writes the control register; starting a stopped timer loads the
    /// reload value and clears the prescaler.
    pub fn write_control(&mut self, index: usize, value: u16)
        requires
            index < 4,
        ensures
            ({
                let before = old(self).channel@[index as int];
                let written = Timer { control: value & 0xc7, ..before };
                final(self).channel@ == old(self).channel@.update(
                    index as int,
                    if !before.is_enabled() && written.is_enabled() {
                        Timer { counter: before.reload, residue: 0, ..written }
                    } else {
                        written
                    },
                )
            }),
    {
        let mut timer = self.channel[index];
        let was_enabled = timer.enabled();
        timer.control = value & 0xc7;
        if !was_enabled && timer.enabled() {
            timer.counter = timer.reload;
            timer.residue = 0;
        }
        self.channel[index] = timer;
    }

    fn step_channel(timer: Timer, cycles: u32, index: usize, carried: u64) -> (result: (
        Timer,
        u64,
    ))
        requires
            index < 4,
            carried <= 0x2_0000_0000,
        ensures
            (result.0, result.1 as int) == channel_step(timer, cycles, index as int, carried as int),
            result.1 <= 0x2_0000_0000,
    {
        if !timer.enabled() {
            return (timer, 0);
        }
        let mut stepped = timer;
        let increments: u64 = if timer.cascade() && index > 0 {
            carried
        } else {
            let total = timer.residue as u64 + cycles as u64;
            let shift = prescaler_shift_exec(timer.control);
            let steps = total >> shift;
            assert((1u64 << shift) >= 1) by (bit_vector)
                requires
                    shift <= 10,
            ;
            let rest = total & ((1u64 << shift) - 1);
            stepped.residue = rest as u32;
            assert(steps <= total) by (bit_vector)
                requires
                    steps == total >> shift,
                    shift <= 10,
            ;
            steps
        };
        if increments == 0 {
            return (stepped, 0);
        }
        let total = stepped.counter as u64 + increments;
        if total > 0xffff {
            let period = 0x1_0000 - stepped.reload as u64;
            let excess = total - 0x1_0000;
            let overflows = excess / period + 1;
            stepped.counter = (stepped.reload as u64 + excess % period) as u16;
            (stepped, overflows)
        } else {
            stepped.counter = total as u16;
            (stepped, 0)
        }
    }

    /// Advances every timer. Returns the IRQ mask to raise and which of the
    /// first two timers overflowed, which the sound FIFOs are clocked from.
    pub fn tick(&mut self, cycles: u32) -> (result: (u16, u8))
        ensures
            (final(self).channel@, result.0, result.1) == tick_from(
                old(self).channel@,
                cycles,
                0,
                0,
                0,
                0,
            ),
    {
        let mut irq: u16 = 0;
        let mut fifo: u8 = 0;
        let mut carried: u64 = 0;
        let mut index: usize = 0;
        while index < 4
            invariant
                index <= 4,
                carried <= 0x2_0000_0000,
                tick_from(self.channel@, cycles, index as int, carried as int, irq, fifo)
                    == tick_from(old(self).channel@, cycles, 0, 0, 0, 0),
            decreases 4 - index,
        {
            let (timer, overflows) = Self::step_channel(self.channel[index], cycles, index, carried);
            if overflows > 0 && timer.irq() {
                irq = irq | (1u16 << (3 + index) as u16);
            }
            if overflows > 0 && index < 2 {
                fifo = fifo | (1u8 << index as u8);
            }
            self.channel[index] = timer;
            carried = overflows;
            index = index + 1;
        }
        (irq, fifo)
    }

    fn channel_wait(timer: Timer, index: usize) -> (wait: Option<u32>)
        ensures
            wait == overflow_wait(timer, index as int),
    {
        if !timer.enabled() || (timer.cascade() && index > 0) {
            return None;
        }
        let shift = prescaler_shift_exec(timer.control);
        let remaining: u64 = (0x1_0000 - timer.counter as u64) << shift;
        proof {
            let c = (0x1_0000 - timer.counter) as u64;
            vstd::arithmetic::power2::lemma2_to64();
            assert(vstd::arithmetic::power2::pow2(shift as nat) <= 1024);
            assert(c * vstd::arithmetic::power2::pow2(shift as nat) <= 0x1_0000 * 1024)
                by (nonlinear_arith)
                requires
                    c <= 0x1_0000,
                    vstd::arithmetic::power2::pow2(shift as nat) <= 1024,
            ;
            vstd::bits::lemma_u64_shl_is_mul(c, shift);
        }
        let wait = if remaining > timer.residue as u64 {
            remaining - timer.residue as u64
        } else {
            0
        };
        Some(if wait < 1 { 1u32 } else { wait as u32 })
    }

    /// Cycles until the soonest overflow, used to skip ahead while halted.
    pub fn cycles_until_overflow(&self) -> (soonest: u32)
        ensures
            soonest == soonest_from(self.channel@, 0),
    {
        let mut soonest = u32::MAX;
        let mut index: usize = 4;
        while index > 0
            invariant
                index <= 4,
                soonest == soonest_from(self.channel@, index as int),
            decreases index,
        {
            index = index - 1;
            match Self::channel_wait(self.channel[index], index) {
                Some(wait) => {
                    if wait < soonest {
                        soonest = wait;
                    }
                },
                None => {},
            }
        }
        soonest
    }
}

/// The bytes a timer is saved as.
pub closed spec fn timer_bytes(timer: Timer) -> Seq<u8> {
    le16(timer.counter) + le16(timer.reload) + le16(timer.control) + le32(timer.residue)
}

/// The bytes the four timers are saved as.
pub open spec fn timers_bytes(channel: Seq<Timer>) -> Seq<u8> {
    timer_bytes(channel[0]) + timer_bytes(channel[1]) + timer_bytes(channel[2]) + timer_bytes(
        channel[3],
    )
}

pub(crate) proof fn lemma_le16_of_from(bytes: Seq<u8>, i: int)
    requires
        0 <= i,
        i + 2 <= bytes.len(),
    ensures
        le16(from_le16(bytes, i)) == bytes.subrange(i, i + 2),
{
    let b0 = bytes[i];
    let b1 = bytes[i + 1];
    let v = from_le16(bytes, i);
    assert(v as u8 == b0 && (v >> 8u16) as u8 == b1) by (bit_vector)
        requires
            v == (b0 as u16) | ((b1 as u16) << 8u16),
    ;
    assert(le16(v) =~= bytes.subrange(i, i + 2));
}

pub(crate) proof fn lemma_le32_of_from(bytes: Seq<u8>, i: int)
    requires
        0 <= i,
        i + 4 <= bytes.len(),
    ensures
        le32(from_le32(bytes, i)) == bytes.subrange(i, i + 4),
{
    let b0 = bytes[i];
    let b1 = bytes[i + 1];
    let b2 = bytes[i + 2];
    let b3 = bytes[i + 3];
    let v = from_le32(bytes, i);
    assert(v as u8 == b0 && (v >> 8u32) as u8 == b1 && (v >> 16u32) as u8 == b2 && (v >> 24u32)
        as u8 == b3) by (bit_vector)
        requires
            v == (b0 as u32) | ((b1 as u32) << 8u32) | ((b2 as u32) << 16u32) | ((b3 as u32)
                << 24u32),
    ;
    assert(le32(v) =~= bytes.subrange(i, i + 4));
}

impl Timers {
    fn load_timer(reader: &mut Reader) -> (result: Result<Timer, StateError>)
        requires
            old(reader).wf(),
        ensures
            final(reader).wf(),
            final(reader).bytes() == old(reader).bytes(),
            match result {
                Ok(timer) => old(reader).fits(10) && old(reader).advanced(&*final(reader), 10)
                    && old(reader).bytes().subrange(old(reader).pos(), old(reader).pos() + 10)
                    == timer_bytes(timer),
                Err(error) => error is Truncated && !old(reader).fits(10),
            },
    {
        let ghost b = reader.bytes();
        let ghost p = reader.pos();
        let counter = reader.u16()?;
        let reload = reader.u16()?;
        let control = reader.u16()?;
        let residue = reader.u32()?;
        proof {
            lemma_le16_of_from(b, p);
            lemma_le16_of_from(b, p + 2);
            lemma_le16_of_from(b, p + 4);
            lemma_le32_of_from(b, p + 6);
            assert(b.subrange(p, p + 10) =~= b.subrange(p, p + 2) + b.subrange(p + 2, p + 4)
                + b.subrange(p + 4, p + 6) + b.subrange(p + 6, p + 10));
        }
        Ok(Timer { counter, reload, control, residue })
    }
}

impl Snapshot for Timers {
    fn save(&self, writer: &mut Writer)
        ensures
            final(writer).data@ == old(writer).data@ + timers_bytes(self.channel@),
    {
        let mut index: usize = 0;
        while index < 4
            invariant
                index <= 4,
                writer.data@ == old(writer).data@ + partial_timers(self.channel@, index as int),
            decreases 4 - index,
        {
            let timer = self.channel[index];
            writer.u16(timer.counter);
            writer.u16(timer.reload);
            writer.u16(timer.control);
            writer.u32(timer.residue);
            proof {
                assert(partial_timers(self.channel@, index + 1) =~= partial_timers(
                    self.channel@,
                    index as int,
                ) + timer_bytes(timer));
            }
            assert(writer.data@ =~= old(writer).data@ + partial_timers(
                self.channel@,
                index + 1,
            ));
            index = index + 1;
        }
        assert(partial_timers(self.channel@, 4) =~= timers_bytes(self.channel@)) by {
            reveal_with_fuel(partial_timers, 5);
        }
    }

    fn load(&mut self, reader: &mut Reader) -> (result: Result<(), StateError>)
        ensures
            final(reader).bytes() == old(reader).bytes(),
            result is Ok ==> old(reader).fits(40) && old(reader).advanced(&*final(reader), 40)
                && old(reader).bytes().subrange(old(reader).pos(), old(reader).pos() + 40)
                == timers_bytes(final(self).channel@),
            result is Err ==> !old(reader).fits(40),
            forall|saved: Timers, rest: Seq<u8>| #[trigger]
                old(reader).expects(timers_bytes(saved.channel@) + rest) ==> result is Ok
                    && final(self).channel == saved.channel && final(reader).expects(rest),
    {
        let ghost b = reader.bytes();
        let ghost p = reader.pos();
        let ghost start = *reader;
        let first = Self::load_timer(reader)?;
        let second = Self::load_timer(reader)?;
        let third = Self::load_timer(reader)?;
        let fourth = Self::load_timer(reader)?;
        self.channel = [first, second, third, fourth];
        proof {
            assert(b.subrange(p, p + 40) =~= b.subrange(p, p + 10) + b.subrange(p + 10, p + 20)
                + b.subrange(p + 20, p + 30) + b.subrange(p + 30, p + 40));
            assert forall|saved: Timers, rest: Seq<u8>| #[trigger]
                start.expects(timers_bytes(saved.channel@) + rest) implies self.channel
                == saved.channel && reader.expects(rest) by {
                assert(timers_bytes(saved.channel@).len() == 40);
                crate::state::lemma_expects_split(b, p, timers_bytes(saved.channel@), rest);
                law_timers_round_trip(saved.channel@, self.channel@);
                assert(self.channel =~= saved.channel);
            }
        }
        Ok(())
    }
}

/// The bytes of the first `count` timers.
pub open spec fn partial_timers(channel: Seq<Timer>, count: int) -> Seq<u8>
    decreases count,
{
    if count <= 0 {
        Seq::empty()
    } else {
        partial_timers(channel, count - 1) + timer_bytes(channel[count - 1])
    }
}

/// Saved timers load back as the same timers: the encoding loses nothing.
pub proof fn law_timers_round_trip(channel: Seq<Timer>, loaded: Seq<Timer>)
    requires
        channel.len() == 4,
        loaded.len() == 4,
        timers_bytes(loaded) == timers_bytes(channel),
    ensures
        loaded == channel,
{
    let a = timers_bytes(channel);
    assert forall|k: int| 0 <= k < 4 implies loaded[k] == channel[k] by {
        let base = k * 10;
        assert(a.subrange(base, base + 10) == timer_bytes(channel[k])) by {
            assert(timers_bytes(channel).subrange(base, base + 10) =~= timer_bytes(channel[k]));
        }
        assert(a.subrange(base, base + 10) == timer_bytes(loaded[k])) by {
            assert(timers_bytes(loaded).subrange(base, base + 10) =~= timer_bytes(loaded[k]));
        }
        lemma_timer_bytes_injective(channel[k], loaded[k]);
    }
    assert(loaded =~= channel);
}

proof fn lemma_timer_bytes_injective(a: Timer, b: Timer)
    requires
        timer_bytes(a) == timer_bytes(b),
    ensures
        a == b,
{
    let s = timer_bytes(a);
    crate::state::law_u16_round_trip(Seq::empty(), a.counter);
    crate::state::law_u16_round_trip(Seq::empty(), b.counter);
    assert(s.subrange(0, 2) =~= le16(a.counter));
    assert(timer_bytes(b).subrange(0, 2) =~= le16(b.counter));
    assert(Seq::<u8>::empty() + le16(a.counter) =~= le16(a.counter));
    assert(Seq::<u8>::empty() + le16(b.counter) =~= le16(b.counter));
    assert(s.subrange(2, 4) =~= le16(a.reload));
    assert(timer_bytes(b).subrange(2, 4) =~= le16(b.reload));
    crate::state::law_u16_round_trip(Seq::empty(), a.reload);
    crate::state::law_u16_round_trip(Seq::empty(), b.reload);
    assert(Seq::<u8>::empty() + le16(a.reload) =~= le16(a.reload));
    assert(Seq::<u8>::empty() + le16(b.reload) =~= le16(b.reload));
    assert(s.subrange(4, 6) =~= le16(a.control));
    assert(timer_bytes(b).subrange(4, 6) =~= le16(b.control));
    crate::state::law_u16_round_trip(Seq::empty(), a.control);
    crate::state::law_u16_round_trip(Seq::empty(), b.control);
    assert(Seq::<u8>::empty() + le16(a.control) =~= le16(a.control));
    assert(Seq::<u8>::empty() + le16(b.control) =~= le16(b.control));
    assert(s.subrange(6, 10) =~= le32(a.residue));
    assert(timer_bytes(b).subrange(6, 10) =~= le32(b.residue));
    crate::state::law_u32_round_trip(Seq::empty(), a.residue);
    crate::state::law_u32_round_trip(Seq::empty(), b.residue);
    assert(Seq::<u8>::empty() + le32(a.residue) =~= le32(a.residue));
    assert(Seq::<u8>::empty() + le32(b.residue) =~= le32(b.residue));
}

} // verus!
