//! The four DMA channels.

use vstd::prelude::*;

verus! {

/// What made a channel start; `control` bits 12-13 select one of these.
#[derive(Clone, Copy, PartialEq, Eq, Structural, Debug)]
pub enum DmaTiming {
    Immediate,
    VBlank,
    HBlank,
    Special,
}

/// The timing a control value selects.
pub open spec fn timing_of(control: u16) -> DmaTiming {
    let select = (control >> 12u16) & 3;
    if select == 0 {
        DmaTiming::Immediate
    } else if select == 1 {
        DmaTiming::VBlank
    } else if select == 2 {
        DmaTiming::HBlank
    } else {
        DmaTiming::Special
    }
}

#[derive(Clone, Copy)]
pub struct DmaChannel {
    pub source: u32,
    pub destination: u32,
    pub count: u16,
    pub control: u16,
    /// Latched address and length, reloaded when the channel repeats.
    pub internal_source: u32,
    pub internal_destination: u32,
    pub internal_count: u32,
    pub active: bool,
}

impl Default for DmaChannel {
    fn default() -> (channel: Self)
        ensures
            channel.source == 0 && channel.destination == 0 && channel.count == 0
                && channel.control == 0 && channel.internal_source == 0
                && channel.internal_destination == 0 && channel.internal_count == 0
                && !channel.active,
    {
        DmaChannel {
            source: 0,
            destination: 0,
            count: 0,
            control: 0,
            internal_source: 0,
            internal_destination: 0,
            internal_count: 0,
            active: false,
        }
    }
}

impl DmaChannel {
    pub open spec fn is_enabled(self) -> bool {
        self.control & 0x8000 != 0
    }

    pub open spec fn is_repeating(self) -> bool {
        self.control & 0x0200 != 0
    }

    pub open spec fn is_word(self) -> bool {
        self.control & 0x0400 != 0
    }

    pub open spec fn raises_irq(self) -> bool {
        self.control & 0x4000 != 0
    }

    pub fn timing(&self) -> (timing: DmaTiming)
        ensures
            timing == timing_of(self.control),
    {
        let select = (self.control >> 12u16) & 3;
        if select == 0 {
            DmaTiming::Immediate
        } else if select == 1 {
            DmaTiming::VBlank
        } else if select == 2 {
            DmaTiming::HBlank
        } else {
            DmaTiming::Special
        }
    }

    pub fn enabled(&self) -> (r: bool)
        ensures
            r == self.is_enabled(),
    {
        self.control & 0x8000 != 0
    }

    pub fn repeats(&self) -> (r: bool)
        ensures
            r == self.is_repeating(),
    {
        self.control & 0x0200 != 0
    }

    pub fn word(&self) -> (r: bool)
        ensures
            r == self.is_word(),
    {
        self.control & 0x0400 != 0
    }

    pub fn irq(&self) -> (r: bool)
        ensures
            r == self.raises_irq(),
    {
        self.control & 0x4000 != 0
    }

    /// Destination address control: increment, decrement, fixed, or
    /// increment and reload.
    pub fn destination_control(&self) -> (r: u16)
        ensures
            r == (self.control >> 5u16) & 3,
            r < 4,
    {
        let c = self.control;
        let r = (c >> 5u16) & 3;
        assert(r < 4) by (bit_vector)
            requires
                r == (c >> 5u16) & 3,
        ;
        r
    }

    /// Source address control: increment, decrement or fixed.
    pub fn source_control(&self) -> (r: u16)
        ensures
            r == (self.control >> 7u16) & 3,
            r < 4,
    {
        let c = self.control;
        let r = (c >> 7u16) & 3;
        assert(r < 4) by (bit_vector)
            requires
                r == (c >> 7u16) & 3,
        ;
        r
    }
}

} // verus!
