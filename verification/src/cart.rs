//! Cartridge: ROM, backup memory and the GPIO real time clock.

use crate::state::{block_bytes, bool_byte, le16, le32, le64, Reader, Snapshot, StateError, Writer};
use vstd::prelude::*;

verus! {

#[derive(Clone, Copy, PartialEq, Eq, Structural, Debug)]
pub enum SaveKind {
    Absent,
    Sram,
    Flash64,
    Flash128,
    Eeprom512,
    Eeprom8k,
}

/// Bytes of backup memory each kind of chip holds.
pub open spec fn save_size(kind: SaveKind) -> usize {
    match kind {
        SaveKind::Absent => 0,
        SaveKind::Sram => 0x8000,
        SaveKind::Flash64 => 0x10000,
        SaveKind::Flash128 => 0x20000,
        SaveKind::Eeprom512 => 0x200,
        SaveKind::Eeprom8k => 0x2000,
    }
}

pub open spec fn kind_code(kind: SaveKind) -> u8 {
    match kind {
        SaveKind::Absent => 0,
        SaveKind::Sram => 1,
        SaveKind::Flash64 => 2,
        SaveKind::Flash128 => 3,
        SaveKind::Eeprom512 => 4,
        SaveKind::Eeprom8k => 5,
    }
}

pub open spec fn kind_from_code(code: u8) -> SaveKind {
    if code == 1 {
        SaveKind::Sram
    } else if code == 2 {
        SaveKind::Flash64
    } else if code == 3 {
        SaveKind::Flash128
    } else if code == 4 {
        SaveKind::Eeprom512
    } else if code == 5 {
        SaveKind::Eeprom8k
    } else {
        SaveKind::Absent
    }
}

pub open spec fn is_eeprom_kind(kind: SaveKind) -> bool {
    kind == SaveKind::Eeprom512 || kind == SaveKind::Eeprom8k
}

pub open spec fn is_flash_kind(kind: SaveKind) -> bool {
    kind == SaveKind::Flash64 || kind == SaveKind::Flash128
}

impl SaveKind {
    pub fn size(self) -> (size: usize)
        ensures
            size == save_size(self),
    {
        match self {
            SaveKind::Absent => 0,
            SaveKind::Sram => 0x8000,
            SaveKind::Flash64 => 0x10000,
            SaveKind::Flash128 => 0x20000,
            SaveKind::Eeprom512 => 0x200,
            SaveKind::Eeprom8k => 0x2000,
        }
    }

    fn code(self) -> (code: u8)
        ensures
            code == kind_code(self),
    {
        match self {
            SaveKind::Absent => 0,
            SaveKind::Sram => 1,
            SaveKind::Flash64 => 2,
            SaveKind::Flash128 => 3,
            SaveKind::Eeprom512 => 4,
            SaveKind::Eeprom8k => 5,
        }
    }

    fn from_code(code: u8) -> (kind: SaveKind)
        ensures
            kind == kind_from_code(code),
    {
        if code == 1 {
            SaveKind::Sram
        } else if code == 2 {
            SaveKind::Flash64
        } else if code == 3 {
            SaveKind::Flash128
        } else if code == 4 {
            SaveKind::Eeprom512
        } else if code == 5 {
            SaveKind::Eeprom8k
        } else {
            SaveKind::Absent
        }
    }
}

/// A decoded kind is the kind that was encoded.
pub proof fn law_kind_code_round_trip(kind: SaveKind)
    ensures
        kind_from_code(kind_code(kind)) == kind,
{
}

/// A decoded flash state is the state that was encoded.
pub proof fn law_flash_code_round_trip(state: FlashState)
    ensures
        flash_from_code(flash_code(state)) == state,
{
}

/// A decoded EEPROM state is the state that was encoded.
pub proof fn law_eeprom_code_round_trip(state: EepromState)
    ensures
        eeprom_from_code(eeprom_code(state)) == state,
{
}

// ------------------------------------------------------------------ flash

/// Where the flash chip is in its command sequence.
#[derive(Clone, Copy, PartialEq, Eq, Structural, Debug)]
pub enum FlashState {
    Ready,
    Command1,
    Command2,
    WriteByte,
    BankSelect,
}

pub open spec fn flash_code(state: FlashState) -> u8 {
    match state {
        FlashState::Ready => 0,
        FlashState::Command1 => 1,
        FlashState::Command2 => 2,
        FlashState::WriteByte => 3,
        FlashState::BankSelect => 4,
    }
}

pub open spec fn flash_from_code(code: u8) -> FlashState {
    if code == 1 {
        FlashState::Command1
    } else if code == 2 {
        FlashState::Command2
    } else if code == 3 {
        FlashState::WriteByte
    } else if code == 4 {
        FlashState::BankSelect
    } else {
        FlashState::Ready
    }
}

impl FlashState {
    fn code(self) -> (code: u8)
        ensures
            code == flash_code(self),
    {
        match self {
            FlashState::Ready => 0,
            FlashState::Command1 => 1,
            FlashState::Command2 => 2,
            FlashState::WriteByte => 3,
            FlashState::BankSelect => 4,
        }
    }

    fn from_code(code: u8) -> (state: FlashState)
        ensures
            state == flash_from_code(code),
    {
        if code == 1 {
            FlashState::Command1
        } else if code == 2 {
            FlashState::Command2
        } else if code == 3 {
            FlashState::WriteByte
        } else if code == 4 {
            FlashState::BankSelect
        } else {
            FlashState::Ready
        }
    }
}

/// The flash chip's command registers.
#[derive(Clone, Copy, PartialEq, Eq, Structural)]
pub struct FlashChip {
    pub state: FlashState,
    pub id_mode: bool,
    pub erase_armed: bool,
    pub bank: usize,
}

/// The backup memory with `[base, end)` reset to all ones.
pub open spec fn erased(save: Seq<u8>, base: int, end: int) -> Seq<u8> {
    Seq::new(save.len(), |i: int| if base <= i < end { 0xffu8 } else { save[i] })
}

/// One byte written to the flash window at `offset`: the chip's new
/// registers, the new backup memory and whether that memory changed.
pub open spec fn flash_write_spec(chip: FlashChip, kind: SaveKind, save: Seq<u8>, offset: int, value: u8) -> (
    FlashChip,
    Seq<u8>,
    bool,
) {
    let ready = FlashChip { state: FlashState::Ready, ..chip };
    if chip.state == FlashState::WriteByte {
        let index = chip.bank * 0x10000 + offset;
        (ready, save.update(index, save[index] & value), true)
    } else if chip.state == FlashState::BankSelect {
        let bank = if offset == 0 && kind == SaveKind::Flash128 {
            (value & 1) as usize
        } else {
            chip.bank
        };
        (FlashChip { bank, ..ready }, save, false)
    } else if chip.state == FlashState::Ready && offset == 0x5555 && value == 0xaa {
        (FlashChip { state: FlashState::Command1, ..chip }, save, false)
    } else if chip.state == FlashState::Command1 && offset == 0x2aaa && value == 0x55 {
        (FlashChip { state: FlashState::Command2, ..chip }, save, false)
    } else if chip.state == FlashState::Command2 && offset == 0x5555 {
        if value == 0x90 {
            (FlashChip { id_mode: true, ..ready }, save, false)
        } else if value == 0xf0 {
            (FlashChip { id_mode: false, ..ready }, save, false)
        } else if value == 0x80 {
            (FlashChip { erase_armed: true, ..ready }, save, false)
        } else if value == 0x10 && chip.erase_armed {
            (FlashChip { erase_armed: false, ..ready }, erased(save, 0, save.len() as int), true)
        } else if value == 0xa0 {
            (FlashChip { state: FlashState::WriteByte, ..chip }, save, false)
        } else if value == 0xb0 {
            (FlashChip { state: FlashState::BankSelect, ..chip }, save, false)
        } else {
            (FlashChip { erase_armed: false, ..ready }, save, false)
        }
    } else if chip.state == FlashState::Command2 && value == 0x30 && chip.erase_armed {
        let base = chip.bank * 0x10000 + (offset / 0x1000) * 0x1000;
        let end = if base + 0x1000 < save.len() {
            base + 0x1000
        } else {
            save.len() as int
        };
        (FlashChip { erase_armed: false, ..ready }, erased(save, base, end), true)
    } else {
        (ready, save, false)
    }
}

// ----------------------------------------------------------------- eeprom

/// Where the serial EEPROM is in a transfer.
#[derive(Clone, Copy, PartialEq, Eq, Structural, Debug)]
pub enum EepromState {
    Ready,
    Address,
    ReadDummy,
    Read,
    Write,
}

pub open spec fn eeprom_code(state: EepromState) -> u8 {
    match state {
        EepromState::Ready => 0,
        EepromState::Address => 1,
        EepromState::ReadDummy => 2,
        EepromState::Read => 3,
        EepromState::Write => 4,
    }
}

pub open spec fn eeprom_from_code(code: u8) -> EepromState {
    if code == 1 {
        EepromState::Address
    } else if code == 2 {
        EepromState::ReadDummy
    } else if code == 3 {
        EepromState::Read
    } else if code == 4 {
        EepromState::Write
    } else {
        EepromState::Ready
    }
}

impl EepromState {
    fn code(self) -> (code: u8)
        ensures
            code == eeprom_code(self),
    {
        match self {
            EepromState::Ready => 0,
            EepromState::Address => 1,
            EepromState::ReadDummy => 2,
            EepromState::Read => 3,
            EepromState::Write => 4,
        }
    }

    fn from_code(code: u8) -> (state: EepromState)
        ensures
            state == eeprom_from_code(code),
    {
        if code == 1 {
            EepromState::Address
        } else if code == 2 {
            EepromState::ReadDummy
        } else if code == 3 {
            EepromState::Read
        } else if code == 4 {
            EepromState::Write
        } else {
            EepromState::Ready
        }
    }
}

/// The serial EEPROM's transfer registers.
#[derive(Clone, Copy, PartialEq, Eq, Structural)]
pub struct EepromChip {
    pub state: EepromState,
    /// The 64 bit block being read or written, below 0x400.
    pub address: usize,
    pub buffer: u64,
    pub bits: u32,
}

/// Address bits a request carries: 14 on the 8K part, 6 on the 512 byte one.
pub open spec fn address_bits(kind: SaveKind) -> u32 {
    if kind == SaveKind::Eeprom8k {
        14
    } else {
        6
    }
}

/// Byte `index` of a 64 bit value, most significant first.
pub open spec fn be64_byte(value: u64, index: int) -> u8 {
    (value >> (56 - 8 * index) as u64) as u8
}

/// The backup memory with the 64 bit block at `address` replaced by
/// `value`, bytes past the end of memory dropped.
pub open spec fn block_written(save: Seq<u8>, address: int, value: u64) -> Seq<u8> {
    Seq::new(
        save.len(),
        |i: int|
            if address * 8 <= i < address * 8 + 8 {
                be64_byte(value, i - address * 8)
            } else {
                save[i]
            },
    )
}

/// One bit clocked out of the EEPROM: the bit and the new registers.
pub open spec fn eeprom_read_spec(chip: EepromChip, save: Seq<u8>) -> (u16, EepromChip) {
    if chip.state == EepromState::ReadDummy {
        let bits = chip.bits.wrapping_add(1);
        if bits == 4 {
            (0, EepromChip { bits: 0, state: EepromState::Read, ..chip })
        } else {
            (0, EepromChip { bits, ..chip })
        }
    } else if chip.state == EepromState::Read {
        let byte = chip.address * 8 + chip.bits / 8;
        let bit = 7 - chip.bits % 8;
        let value = if 0 <= byte < save.len() {
            save[byte]
        } else {
            0xffu8
        };
        let out = ((value >> bit as u8) & 1) as u16;
        let bits = chip.bits.wrapping_add(1);
        if bits == 64 {
            (out, EepromChip { bits: 0, state: EepromState::Ready, ..chip })
        } else {
            (out, EepromChip { bits, ..chip })
        }
    } else {
        (1, chip)
    }
}

/// One bit clocked into the EEPROM: the new registers, the new memory and
/// whether the memory was written.
pub open spec fn eeprom_write_spec(chip: EepromChip, kind: SaveKind, save: Seq<u8>, value: u16) -> (
    EepromChip,
    Seq<u8>,
    bool,
) {
    let bit = (value & 1) as u64;
    let shifted = (chip.buffer << 1u64) | bit;
    let bits = chip.bits.wrapping_add(1);
    let width = address_bits(kind);
    if chip.state == EepromState::Ready {
        if bits == 2 {
            let request = shifted & 3;
            let cleared = EepromChip { bits: 0, buffer: 0, ..chip };
            if request == 3 {
                (EepromChip { state: EepromState::Address, ..cleared }, save, false)
            } else if request == 2 {
                (EepromChip { state: EepromState::Write, ..cleared }, save, false)
            } else {
                (cleared, save, false)
            }
        } else {
            (EepromChip { buffer: shifted, bits, ..chip }, save, false)
        }
    } else if chip.state == EepromState::Address {
        if chip.bits < width {
            if bits == width {
                (
                    EepromChip { address: (shifted & 0x3ff) as usize, buffer: 0, bits, ..chip },
                    save,
                    false,
                )
            } else {
                (EepromChip { buffer: shifted, bits, ..chip }, save, false)
            }
        } else {
            // The stop bit that ends a read request.
            (EepromChip { bits: 0, buffer: 0, state: EepromState::ReadDummy, ..chip }, save, false)
        }
    } else if chip.state == EepromState::Write {
        if chip.bits < width {
            if bits == width {
                (
                    EepromChip { address: (shifted & 0x3ff) as usize, buffer: 0, bits, ..chip },
                    save,
                    false,
                )
            } else {
                (EepromChip { buffer: shifted, bits, ..chip }, save, false)
            }
        } else if chip.bits < width + 64 {
            if bits == width + 64 {
                (
                    EepromChip { buffer: 0, bits, ..chip },
                    block_written(save, chip.address as int, shifted),
                    true,
                )
            } else {
                (EepromChip { buffer: shifted, bits, ..chip }, save, false)
            }
        } else {
            // The stop bit that ends a write request.
            (EepromChip { bits: 0, buffer: 0, state: EepromState::Ready, ..chip }, save, false)
        }
    } else {
        (EepromChip { bits: 0, buffer: 0, state: EepromState::Ready, ..chip }, save, false)
    }
}

// -------------------------------------------------------------------- rtc

pub const PIN_SCK: u16 = 1;

pub const PIN_SIO: u16 = 2;

pub const PIN_CS: u16 = 4;

#[derive(Clone, Copy, PartialEq, Eq, Structural, Debug)]
pub enum RtcState {
    Idle,
    Command,
    Transfer,
}

/// Seiko S3511 clock on the cartridge GPIO pins.
pub struct Rtc {
    pub data: u16,
    pub direction: u16,
    pub readable: bool,
    pub state: RtcState,
    pub command: u8,
    pub bits: u32,
    pub buffer: u8,
    pub byte_index: usize,
    pub transfer: Vec<u8>,
    pub reading: bool,
    pub control: u8,
    pub last_sck: bool,
    pub last_cs: bool,
}

/// What a read of a GPIO register returns.
pub open spec fn rtc_read_spec(rtc: &Rtc, offset: usize) -> u16 {
    if !rtc.readable {
        0
    } else if offset == 0xc4 {
        rtc.data & !rtc.direction & 7
    } else if offset == 0xc6 {
        rtc.direction
    } else if offset == 0xc8 {
        if rtc.readable {
            1
        } else {
            0
        }
    } else {
        0
    }
}

/// The byte with its bits in the opposite order.
pub open spec fn reversed_byte(value: u8) -> u8 {
    ((value & 1) << 7u8) | ((value & 2) << 5u8) | ((value & 4) << 3u8) | ((value & 8) << 1u8) | ((
    value & 16) >> 1u8) | ((value & 32) >> 3u8) | ((value & 64) >> 5u8) | ((value & 128) >> 7u8)
}

fn reverse_bits(value: u8) -> (r: u8)
    ensures
        r == reversed_byte(value),
{
    ((value & 1) << 7u8) | ((value & 2) << 5u8) | ((value & 4) << 3u8) | ((value & 8) << 1u8) | ((
    value & 16) >> 1u8) | ((value & 32) >> 3u8) | ((value & 64) >> 5u8) | ((value & 128) >> 7u8)
}

/// Two BCD digits.
pub open spec fn bcd_spec(value: u32) -> u8 {
    (((value / 10) << 4u32) | (value % 10)) as u8
}

fn bcd(value: u32) -> (r: u8)
    ensures
        r == bcd_spec(value),
{
    (((value / 10) << 4u32) | (value % 10)) as u8
}

/// Calendar fields of a Unix time: (year, month, day, weekday, hour,
/// minute, second), by Howard Hinnant's civil-from-days.
pub open spec fn civil_spec(seconds: u64) -> (u64, u32, u32, u32, u32, u32, u32) {
    let days = seconds / 86400;
    let rem = (seconds % 86400) as u32;
    let hour = rem / 3600;
    let minute = (rem % 3600) / 60;
    let second = rem % 60;
    let weekday = ((days + 4) % 7) as u32;
    let z = (days + 719_468) as u64;
    let era = z / 146_097;
    let doe = z % 146_097;
    let yoe = ((doe - doe / 1460 + doe / 36524 - doe / 146_096) / 365) as u64;
    let y = (yoe + era * 400) as u64;
    let doy = doe.wrapping_sub((365 * yoe + yoe / 4 - yoe / 100) as u64);
    let mp = doy.wrapping_mul(5).wrapping_add(2) / 153;
    let d = doy.wrapping_sub(mp.wrapping_mul(153).wrapping_add(2) / 5).wrapping_add(1) as u32;
    let m = if mp < 10 {
        (mp + 3) as u32
    } else {
        (mp - 9) as u32
    };
    let year = if m <= 2 {
        (y + 1) as u64
    } else {
        y
    };
    (year, m, d, weekday, hour, minute, second)
}

fn civil_from_unix(seconds: u64) -> (fields: (u64, u32, u32, u32, u32, u32, u32))
    ensures
        fields == civil_spec(seconds),
        fields.3 < 7,
        fields.4 < 24,
        fields.5 < 60,
        fields.6 < 60,
{
    let days = seconds / 86400;
    let rem = (seconds % 86400) as u32;
    let hour = rem / 3600;
    let minute = (rem % 3600) / 60;
    let second = rem % 60;
    let weekday = ((days + 4) % 7) as u32;
    let z = days + 719_468;
    let era = z / 146_097;
    let doe = z % 146_097;
    let yoe = (doe - doe / 1460 + doe / 36524 - doe / 146_096) / 365;
    let y = yoe + era * 400;
    let doy = doe.wrapping_sub(365 * yoe + yoe / 4 - yoe / 100);
    let mp = doy.wrapping_mul(5).wrapping_add(2) / 153;
    let d = doy.wrapping_sub(mp.wrapping_mul(153).wrapping_add(2) / 5).wrapping_add(1) as u32;
    let m = if mp < 10 {
        (mp + 3) as u32
    } else {
        (mp - 9) as u32
    };
    let year = if m <= 2 {
        y + 1
    } else {
        y
    };
    (year, m, d, weekday, hour, minute, second)
}

/// The seven date and time bytes the clock reports at a given Unix time:
/// year, month, day, weekday, hour (with the PM flag in 12 hour mode),
/// minute and second, all in BCD but the weekday.
pub open spec fn date_time_bytes(seconds: u64, control: u8) -> Seq<u8> {
    let (year, month, day, weekday, hour, minute, second) = civil_spec(seconds);
    let hour24 = control & 0x40 != 0;
    let hour_value = if hour24 {
        hour
    } else {
        hour % 12
    };
    let pm: u8 = if !hour24 && hour >= 12 {
        0x80
    } else {
        0
    };
    seq![
        bcd_spec((year % 100) as u32),
        bcd_spec(month),
        bcd_spec(day),
        weekday as u8,
        bcd_spec(hour_value) | pm,
        bcd_spec(minute),
        bcd_spec(second),
    ]
}

/// The bytes a command reads or expects once it is clocked in, with the
/// host clock at `seconds`: nothing for a reset, the control register, the
/// date and time, the time of day alone, or a single zero byte.
pub open spec fn transfer_bytes(command: u8, control: u8, seconds: u64) -> Seq<u8> {
    let register = (command >> 1u8) & 7;
    if register == 0 {
        Seq::empty()
    } else if register == 1 {
        seq![control]
    } else if register == 2 {
        date_time_bytes(seconds, control)
    } else if register == 3 {
        date_time_bytes(seconds, control).subrange(4, 7)
    } else {
        seq![0u8]
    }
}

/// The command a full byte on the wire names: taken as sent when its high
/// nibble reads 6, else with its bits the other way round.
pub open spec fn command_of(byte: u8) -> u8 {
    if byte & 0xf0 != 0x60 {
        reversed_byte(byte)
    } else {
        byte
    }
}

/// The protocol's own fields, all but the state, are as they were.
pub open spec fn protocol_kept(old: &Rtc, new: &Rtc) -> bool {
    &&& new.command == old.command
    &&& new.bits == old.bits
    &&& new.buffer == old.buffer
    &&& new.byte_index == old.byte_index
    &&& new.transfer@ == old.transfer@
    &&& new.reading == old.reading
    &&& new.control == old.control
}

/// One write of the three pins. `value` drives the pins set as outputs and
/// the others keep what they held. With chip select low the clock goes idle;
/// as it rises a command begins. While it stays high a command byte is
/// clocked in on rising clock edges, and once it is whole the bytes of its
/// register are loaded (the date and time as of `seconds`); read data is
/// presented on falling edges and written data taken on rising edges, and
/// the clock goes idle after the last byte.
pub open spec fn pins_written(old: &Rtc, value: u16, new: &Rtc, seconds: u64) -> bool {
    let driven = (value & old.direction) | (old.data & !old.direction);
    let sck = driven & PIN_SCK != 0;
    let cs = driven & PIN_CS != 0;
    let sio_bit: u8 = if driven & PIN_SIO != 0 {
        1
    } else {
        0
    };
    let merged = (old.data & !old.direction) | (value & old.direction);
    let rising = !old.last_sck && sck;
    let falling = old.last_sck && !sck;
    let bits = old.bits.wrapping_add(1);
    &&& new.last_sck == sck
    &&& new.last_cs == cs
    &&& new.direction == old.direction
    &&& new.readable == old.readable
    &&& if !cs {
        &&& new.data == merged
        &&& new.state == (if old.last_cs {
            RtcState::Idle
        } else {
            old.state
        })
        &&& protocol_kept(old, new)
    } else if !old.last_cs {
        &&& new.data == merged
        &&& new.state == RtcState::Command
        &&& new.bits == 0
        &&& new.buffer == 0
        &&& new.byte_index == 0
        &&& new.transfer@.len() == 0
        &&& new.command == old.command
        &&& new.reading == old.reading
        &&& new.control == old.control
    } else if old.state == RtcState::Command && rising {
        let buffer = (old.buffer << 1u8) | sio_bit;
        let command = command_of(buffer);
        &&& new.data == merged
        &&& if bits == 8 {
            &&& new.state == RtcState::Transfer
            &&& new.command == command
            &&& new.reading == (command & 1 != 0)
            &&& new.bits == 0
            &&& new.buffer == 0
            &&& new.byte_index == 0
            &&& new.transfer@ == transfer_bytes(command, old.control, seconds)
            &&& new.control == (if (command >> 1u8) & 7 == 0 {
                0
            } else {
                old.control
            })
        } else {
            &&& new.state == old.state
            &&& new.bits == bits
            &&& new.buffer == buffer
            &&& new.command == old.command
            &&& new.byte_index == old.byte_index
            &&& new.transfer@ == old.transfer@
            &&& new.reading == old.reading
            &&& new.control == old.control
        }
    } else if old.state == RtcState::Transfer && old.reading && falling {
        let byte = if old.byte_index < old.transfer@.len() {
            old.transfer@[old.byte_index as int]
        } else {
            0
        };
        let bit = (byte >> ((old.bits & 7) as u8)) & 1;
        let index = if bits & 7 == 0 {
            old.byte_index.wrapping_add(1)
        } else {
            old.byte_index
        };
        &&& new.data == (merged & !PIN_SIO) | ((bit as u16) << 1u16)
        &&& new.bits == bits
        &&& new.byte_index == index
        &&& new.state == (if bits & 7 == 0 && index >= old.transfer@.len() {
            RtcState::Idle
        } else {
            RtcState::Transfer
        })
        &&& new.command == old.command
        &&& new.buffer == old.buffer
        &&& new.transfer@ == old.transfer@
        &&& new.reading == old.reading
        &&& new.control == old.control
    } else if old.state == RtcState::Transfer && !old.reading && rising {
        let buffer = old.buffer | (sio_bit << ((old.bits & 7) as u8));
        let index = old.byte_index.wrapping_add(1);
        &&& new.data == merged
        &&& new.bits == bits
        &&& new.command == old.command
        &&& new.transfer@ == old.transfer@
        &&& new.reading == old.reading
        &&& if bits & 7 == 0 {
            &&& new.control == (if (old.command >> 1u8) & 7 == 1 {
                buffer & 0x6a
            } else {
                old.control
            })
            &&& new.buffer == 0
            &&& new.byte_index == index
            &&& new.state == (if index >= old.transfer@.len() {
                RtcState::Idle
            } else {
                RtcState::Transfer
            })
        } else {
            &&& new.control == old.control
            &&& new.buffer == buffer
            &&& new.byte_index == old.byte_index
            &&& new.state == RtcState::Transfer
        }
    } else {
        &&& new.data == merged
        &&& new.state == old.state
        &&& protocol_kept(old, new)
    }
}

/// A write of one of the three GPIO registers: the pin values, the pin
/// directions (three bits) or the read enable (one bit); other offsets are
/// not registers.
pub open spec fn gpio_written(old: &Rtc, offset: int, value: u16, new: &Rtc) -> bool {
    if offset == 0xc4 {
        exists|seconds: u64| #[trigger] pins_written(old, value & 7, new, seconds)
    } else if offset == 0xc6 {
        *new == (Rtc { direction: value & 7, ..*old })
    } else if offset == 0xc8 {
        *new == (Rtc { readable: value & 1 != 0, ..*old })
    } else {
        *new == *old
    }
}

/// The host clock's reading, `std::time::SystemTime`: opaque here.
#[verifier::external_type_specification]
#[verifier::external_body]
pub struct HostTime(std::time::SystemTime);

/// `std::time::SystemTimeError`, a clock set before the Unix epoch: opaque.
#[verifier::external_type_specification]
#[verifier::external_body]
pub struct HostTimeError(std::time::SystemTimeError);

/// `std::time::SystemTime::now`. Nothing is claimed of the reading: it
/// depends on when it is taken.
#[verifier::external_body]
fn clock_now() -> std::time::SystemTime {
    std::time::SystemTime::now()
}

/// `SystemTime::duration_since(UNIX_EPOCH)`: the time elapsed since the
/// Unix epoch, or an error for a clock set before it. Nothing is claimed of
/// which comes back, nor of the duration: both depend on the reading.
#[verifier::external_body]
fn since_epoch(now: &std::time::SystemTime) -> std::result::Result<
    core::time::Duration,
    std::time::SystemTimeError,
> {
    now.duration_since(std::time::UNIX_EPOCH)
}

/// `Duration::as_secs`: the whole seconds of a duration. The duration is
/// opaque here, so nothing is claimed of the count.
#[verifier::external_body]
fn whole_seconds(elapsed: &core::time::Duration) -> u64 {
    elapsed.as_secs()
}

/// The current time in seconds since the Unix epoch, with zero for a clock
/// set before 1970.
fn unix_seconds() -> u64 {
    let now = clock_now();
    match since_epoch(&now) {
        Ok(elapsed) => whole_seconds(&elapsed),
        Err(_) => 0,
    }
}

impl Rtc {
    pub open spec fn wf(&self) -> bool {
        self.transfer@.len() <= 8
    }

    fn new() -> (rtc: Self)
        ensures
            rtc.wf(),
            rtc.data == 0 && rtc.direction == 0 && !rtc.readable && rtc.state == RtcState::Idle,
            rtc.control == 0x40,
    {
        Rtc {
            data: 0,
            direction: 0,
            readable: false,
            state: RtcState::Idle,
            command: 0,
            bits: 0,
            buffer: 0,
            byte_index: 0,
            transfer: Vec::new(),
            reading: false,
            control: 0x40,
            last_sck: false,
            last_cs: false,
        }
    }

    fn read(&self, offset: usize) -> (value: u16)
        ensures
            value == rtc_read_spec(self, offset),
    {
        if !self.readable {
            return 0;
        }
        if offset == 0xc4 {
            self.data & !self.direction & 7
        } else if offset == 0xc6 {
            self.direction
        } else if offset == 0xc8 {
            if self.readable {
                1
            } else {
                0
            }
        } else {
            0
        }
    }

    fn write(&mut self, offset: usize, value: u16)
        requires
            old(self).wf(),
        ensures
            final(self).wf(),
            gpio_written(&*old(self), offset as int, value, &*final(self)),
    {
        if offset == 0xc4 {
            self.write_pins(value & 7);
        } else if offset == 0xc6 {
            self.direction = value & 7;
        } else if offset == 0xc8 {
            self.readable = value & 1 != 0;
        }
    }

    /// The clock's serial protocol on the three pins. Only pins configured
    /// as outputs are driven by the game; the command byte is clocked in on
    /// rising edges, read data is presented while the clock is low.
    fn write_pins(&mut self, value: u16)
        requires
            old(self).wf(),
        ensures
            final(self).wf(),
            exists|seconds: u64| #[trigger] pins_written(&*old(self), value, &*final(self), seconds),
    {
        let ghost before = *self;
        let ghost mut seconds: u64 = 0;
        let driven = (value & self.direction) | (self.data & !self.direction);
        let sck = driven & PIN_SCK != 0;
        let sio = driven & PIN_SIO != 0;
        let cs = driven & PIN_CS != 0;
        let last_sck = self.last_sck;
        let last_cs = self.last_cs;
        self.last_sck = sck;
        self.last_cs = cs;
        self.data = (self.data & !self.direction) | (value & self.direction);
        let sio_bit: u8 = if sio {
            1
        } else {
            0
        };
        if !cs {
            if last_cs {
                self.state = RtcState::Idle;
            }
        } else if !last_cs {
            self.state = RtcState::Command;
            self.bits = 0;
            self.buffer = 0;
            self.byte_index = 0;
            self.transfer.clear();
        } else {
            match self.state {
                RtcState::Command => {
                    if !last_sck && sck {
                        self.buffer = (self.buffer << 1u8) | sio_bit;
                        self.bits = self.bits.wrapping_add(1);
                        if self.bits == 8 {
                            let mut command = self.buffer;
                            if command & 0xf0 != 0x60 {
                                command = reverse_bits(command);
                            }
                            self.command = command;
                            self.reading = command & 1 != 0;
                            self.bits = 0;
                            self.buffer = 0;
                            self.byte_index = 0;
                            let ghost control = self.control;
                            self.begin_transfer();
                            proof {
                                seconds = choose|at: u64|
                                    self.transfer@ == #[trigger] transfer_bytes(command, control, at);
                            }
                            self.state = RtcState::Transfer;
                        }
                    }
                },
                RtcState::Transfer => {
                    if self.reading {
                        if last_sck && !sck {
                            let byte = if self.byte_index < self.transfer.len() {
                                self.transfer[self.byte_index]
                            } else {
                                0
                            };
                            proof {
                                crate::bits::lemma_and_le_u32(self.bits, 7);
                            }
                            let position = (self.bits & 7) as u8;
                            let bit = (byte >> position) & 1;
                            self.data = (self.data & !PIN_SIO) | ((bit as u16) << 1u16);
                            self.bits = self.bits.wrapping_add(1);
                            if self.bits & 7 == 0 {
                                self.byte_index = self.byte_index.wrapping_add(1);
                                if self.byte_index >= self.transfer.len() {
                                    self.state = RtcState::Idle;
                                }
                            }
                        }
                    } else if !last_sck && sck {
                        proof {
                            crate::bits::lemma_and_le_u32(self.bits, 7);
                        }
                        let position = (self.bits & 7) as u8;
                        self.buffer = self.buffer | (sio_bit << position);
                        self.bits = self.bits.wrapping_add(1);
                        if self.bits & 7 == 0 {
                            self.finish_byte();
                            self.buffer = 0;
                            self.byte_index = self.byte_index.wrapping_add(1);
                            if self.byte_index >= self.transfer.len() {
                                self.state = RtcState::Idle;
                            }
                        }
                    }
                },
                RtcState::Idle => {},
            }
        }
        assert(pins_written(&before, value, &*self, seconds));
    }

    /// Loads the bytes a command reads or expects: resetting clears the
    /// control register, reads of the date and time take the host clock.
    #[verifier::spinoff_prover]
    #[verifier::rlimit(60)]
    fn begin_transfer(&mut self)
        requires
            old(self).wf(),
        ensures
            final(self).wf(),
            final(self).data == old(self).data,
            final(self).direction == old(self).direction,
            final(self).readable == old(self).readable,
            final(self).state == old(self).state,
            final(self).bits == old(self).bits,
            final(self).byte_index == old(self).byte_index,
            final(self).reading == old(self).reading,
            final(self).last_sck == old(self).last_sck,
            final(self).last_cs == old(self).last_cs,
            final(self).command == old(self).command,
            final(self).buffer == old(self).buffer,
            final(self).control == (if (old(self).command >> 1u8) & 7 == 0 {
                0
            } else {
                old(self).control
            }),
            exists|seconds: u64|
                final(self).transfer@ == #[trigger] transfer_bytes(
                    old(self).command,
                    old(self).control,
                    seconds,
                ),
    {
        let register = (self.command >> 1u8) & 7;
        let ghost command = self.command;
        let ghost control = self.control;
        let ghost mut seconds: u64 = 0;
        let mut transfer: Vec<u8> = Vec::new();
        if register == 0 {
            self.control = 0;
        } else if register == 1 {
            transfer.push(self.control);
        } else if register == 2 {
            transfer = self.date_time();
            proof {
                seconds = choose|at: u64| transfer@ == #[trigger] date_time_bytes(at, control);
            }
        } else if register == 3 {
            let full = self.date_time();
            proof {
                seconds = choose|at: u64| full@ == #[trigger] date_time_bytes(at, control);
            }
            transfer.push(full[4]);
            transfer.push(full[5]);
            transfer.push(full[6]);
        } else {
            transfer.push(0);
        }
        assert(transfer@ =~= transfer_bytes(command, control, seconds));
        self.transfer = transfer;
    }

    fn finish_byte(&mut self)
        ensures
            final(self).wf() == old(self).wf(),
            final(self).transfer == old(self).transfer,
            final(self).state == old(self).state,
            final(self).data == old(self).data,
            final(self).direction == old(self).direction,
            final(self).readable == old(self).readable,
            final(self).bits == old(self).bits,
            final(self).byte_index == old(self).byte_index,
            final(self).buffer == old(self).buffer,
            final(self).last_sck == old(self).last_sck,
            final(self).last_cs == old(self).last_cs,
            final(self).command == old(self).command,
            final(self).reading == old(self).reading,
            final(self).control == if (old(self).command >> 1u8) & 7 == 1 {
                old(self).buffer & 0x6a
            } else {
                old(self).control
            },
    {
        let register = (self.command >> 1u8) & 7;
        if register == 1 {
            self.control = self.buffer & 0x6a;
        }
    }

    /// The date and time now, as the clock reports it.
    fn date_time(&self) -> (bytes: Vec<u8>)
        ensures
            exists|seconds: u64| bytes@ == #[trigger] date_time_bytes(seconds, self.control),
    {
        let seconds = unix_seconds();
        date_time_at(seconds, self.control)
    }
}

/// The date and time bytes at a given Unix time.
pub fn date_time_at(seconds: u64, control: u8) -> (bytes: Vec<u8>)
    ensures
        bytes@ == date_time_bytes(seconds, control),
{
    let (year, month, day, weekday, hour, minute, second) = civil_from_unix(seconds);
    let hour24 = control & 0x40 != 0;
    let mut hour_value = hour;
    let mut pm: u8 = 0;
    if !hour24 {
        pm = if hour >= 12 {
            0x80
        } else {
            0
        };
        hour_value = hour % 12;
    }
    let mut bytes: Vec<u8> = Vec::new();
    bytes.push(bcd((year % 100) as u32));
    bytes.push(bcd(month));
    bytes.push(bcd(day));
    bytes.push(weekday as u8);
    bytes.push(bcd(hour_value) | pm);
    bytes.push(bcd(minute));
    bytes.push(bcd(second));
    assert(bytes@ =~= date_time_bytes(seconds, control));
    bytes
}

// ------------------------------------------------------------------ cart

pub struct Cart {
    pub rom: Vec<u8>,
    pub save: Vec<u8>,
    pub kind: SaveKind,
    pub save_dirty: bool,
    pub flash: FlashChip,
    pub eeprom: EepromChip,
    pub rtc: Rtc,
    pub has_rtc: bool,
}

/// First index at which `needle` occurs in `haystack`, if any.
pub open spec fn occurs_at(haystack: Seq<u8>, needle: Seq<u8>, index: int) -> bool {
    0 <= index && index + needle.len() <= haystack.len() && haystack.subrange(
        index,
        index + needle.len(),
    ) == needle
}

pub open spec fn contains_bytes(haystack: Seq<u8>, needle: Seq<u8>) -> bool {
    exists|index: int| occurs_at(haystack, needle, index)
}

fn matches_at(haystack: &[u8], needle: &[u8], index: usize) -> (r: bool)
    requires
        index + needle@.len() <= haystack@.len(),
    ensures
        r == occurs_at(haystack@, needle@, index as int),
{
    let hlen = haystack.len();
    let mut k: usize = 0;
    while k < needle.len()
        invariant
            hlen == haystack@.len(),
            k <= needle@.len(),
            index + needle@.len() <= haystack@.len(),
            forall|j: int| 0 <= j < k ==> haystack@[index + j] == needle@[j],
        decreases needle@.len() - k,
    {
        if haystack[index + k] != needle[k] {
            proof {
                let window = haystack@.subrange(index as int, index + needle@.len());
                assert(window[k as int] != needle@[k as int]);
            }
            return false;
        }
        k = k + 1;
    }
    assert(haystack@.subrange(index as int, index + needle@.len()) =~= needle@);
    true
}

fn find(haystack: &[u8], needle: &[u8]) -> (found: Option<usize>)
    requires
        needle@.len() > 0,
    ensures
        match found {
            Some(index) => occurs_at(haystack@, needle@, index as int) && forall|j: int|
                0 <= j < index ==> !occurs_at(haystack@, needle@, j),
            None => !contains_bytes(haystack@, needle@),
        },
{
    if needle.len() > haystack.len() {
        return None;
    }
    let last = haystack.len() - needle.len();
    let end = last + 1;
    let mut index: usize = 0;
    while index < end
        invariant
            end == last + 1,
            index <= end,
            last + needle@.len() == haystack@.len(),
            forall|j: int| 0 <= j < index ==> !occurs_at(haystack@, needle@, j),
        decreases end - index,
    {
        if matches_at(haystack, needle, index) {
            return Some(index);
        }
        index = index + 1;
    }
    assert forall|j: int| !occurs_at(haystack@, needle@, j) by {
        if 0 <= j < end {
        }
    }
    None
}

/// The backup chip a ROM asks for, from the library version string the
/// SDK links in. Anything unrecognised gets SRAM, since a game that never
/// touches backup memory costs nothing.
pub open spec fn detected_kind(rom: Seq<u8>) -> SaveKind {
    if contains_bytes(rom, flash1m_tag()) {
        SaveKind::Flash128
    } else if contains_bytes(rom, flash512_tag()) || contains_bytes(rom, flash_tag()) {
        SaveKind::Flash64
    } else if contains_bytes(rom, eeprom_tag()) {
        SaveKind::Eeprom8k
    } else {
        SaveKind::Sram
    }
}

/// "FLASH1M_V"
pub open spec fn flash1m_tag() -> Seq<u8> {
    seq![0x46u8, 0x4c, 0x41, 0x53, 0x48, 0x31, 0x4d, 0x5f, 0x56]
}

/// "FLASH512_V"
pub open spec fn flash512_tag() -> Seq<u8> {
    seq![0x46u8, 0x4c, 0x41, 0x53, 0x48, 0x35, 0x31, 0x32, 0x5f, 0x56]
}

/// "FLASH_V"
pub open spec fn flash_tag() -> Seq<u8> {
    seq![0x46u8, 0x4c, 0x41, 0x53, 0x48, 0x5f, 0x56]
}

/// "EEPROM_V"
pub open spec fn eeprom_tag() -> Seq<u8> {
    seq![0x45u8, 0x45, 0x50, 0x52, 0x4f, 0x4d, 0x5f, 0x56]
}

/// "SIIRTC_V"
pub open spec fn rtc_tag() -> Seq<u8> {
    seq![0x53u8, 0x49, 0x49, 0x52, 0x54, 0x43, 0x5f, 0x56]
}

fn contains(haystack: &[u8], needle: &[u8]) -> (r: bool)
    requires
        needle@.len() > 0,
    ensures
        r == contains_bytes(haystack@, needle@),
{
    match find(haystack, needle) {
        Some(_) => true,
        None => false,
    }
}

fn detect_save(rom: &[u8]) -> (kind: SaveKind)
    ensures
        kind == detected_kind(rom@),
{
    let flash1m: [u8; 9] = [0x46, 0x4c, 0x41, 0x53, 0x48, 0x31, 0x4d, 0x5f, 0x56];
    let flash512: [u8; 10] = [0x46, 0x4c, 0x41, 0x53, 0x48, 0x35, 0x31, 0x32, 0x5f, 0x56];
    let flash: [u8; 7] = [0x46, 0x4c, 0x41, 0x53, 0x48, 0x5f, 0x56];
    let eeprom: [u8; 8] = [0x45, 0x45, 0x50, 0x52, 0x4f, 0x4d, 0x5f, 0x56];
    assert(flash1m@ =~= flash1m_tag());
    assert(flash512@ =~= flash512_tag());
    assert(flash@ =~= flash_tag());
    assert(eeprom@ =~= eeprom_tag());
    if contains(rom, flash1m.as_slice()) {
        SaveKind::Flash128
    } else if contains(rom, flash512.as_slice()) || contains(rom, flash.as_slice()) {
        SaveKind::Flash64
    } else if contains(rom, eeprom.as_slice()) {
        SaveKind::Eeprom8k
    } else {
        SaveKind::Sram
    }
}

fn filled(value: u8, count: usize) -> (v: Vec<u8>)
    ensures
        v@ == Seq::new(count as nat, |i: int| value),
{
    let mut v: Vec<u8> = Vec::new();
    let mut index: usize = 0;
    while index < count
        invariant
            index <= count,
            v@ == Seq::new(index as nat, |i: int| value),
        decreases count - index,
    {
        v.push(value);
        index = index + 1;
        assert(v@ =~= Seq::new(index as nat, |i: int| value));
    }
    v
}

/// Offset of a cartridge address within the 32M ROM window.
pub open spec fn rom_offset(address: u32) -> u32 {
    address & 0x01ff_ffff
}

impl Cart {
    /// The backup memory is large enough for the chip, the bank is one of
    /// two and the EEPROM address is a valid block.
    pub open spec fn wf(&self) -> bool {
        &&& self.flash.bank <= 1
        &&& self.kind == SaveKind::Sram ==> self.save@.len() >= 0x8000
        &&& self.kind == SaveKind::Flash64 ==> self.save@.len() >= 0x10000 && self.flash.bank == 0
        &&& self.kind == SaveKind::Flash128 ==> self.save@.len() >= 0x20000
        &&& self.eeprom.address < 0x400
        &&& self.rtc.wf()
    }

    /// The byte a ROM read at `address` sees.
    pub open spec fn rom_byte(&self, address: u32) -> u8 {
        let offset = rom_offset(address);
        if self.has_rtc && 0xc4 <= offset < 0xca {
            let half = rtc_read_spec(&self.rtc, (offset & !1u32) as usize);
            if offset & 1 != 0 {
                (half >> 8u16) as u8
            } else {
                half as u8
            }
        } else if offset < self.rom@.len() {
            self.rom@[offset as int]
        } else {
            let index = (address / 2) as u16;
            if address & 1 != 0 {
                (index >> 8u16) as u8
            } else {
                index as u8
            }
        }
    }

    /// The halfword a ROM read at `address` sees. Past the end of the ROM a
    /// read returns the low half of the halved address.
    pub open spec fn rom_half(&self, address: u32) -> u16 {
        let offset = address & 0x01ff_fffe;
        if self.has_rtc && 0xc4 <= offset < 0xca {
            rtc_read_spec(&self.rtc, offset as usize)
        } else if offset + 1 < self.rom@.len() {
            (self.rom@[offset as int] as u16) | ((self.rom@[offset + 1] as u16) << 8u16)
        } else {
            (address / 2) as u16
        }
    }

    /// The byte a backup memory read at `address` sees.
    pub open spec fn save_byte(&self, address: u32) -> u8 {
        if self.kind == SaveKind::Sram {
            self.save@[(address & 0x7fff) as int]
        } else if is_flash_kind(self.kind) {
            let offset = (address & 0xffff) as int;
            if self.flash.id_mode && offset < 2 {
                if self.kind == SaveKind::Flash128 {
                    if offset == 0 {
                        0x62
                    } else {
                        0x13
                    }
                } else if offset == 0 {
                    0x32
                } else {
                    0x1b
                }
            } else {
                self.save@[self.flash.bank * 0x10000 + offset]
            }
        } else {
            0xff
        }
    }

    /// True when a cartridge address is really an EEPROM access.
    pub open spec fn eeprom_at(&self, address: u32) -> bool {
        &&& is_eeprom_kind(self.kind)
        &&& 0x0d00_0000 <= address <= 0x0dff_ffff
        &&& self.rom@.len() > 0x0100_0000 ==> rom_offset(address) >= 0x01ff_ff00
    }

    /// A cartridge just built from `rom`: its save chip detected from the
    /// ROM's tag, backup memory erased to 0xff, every chip idle.
    pub open spec fn fresh(&self, rom: Seq<u8>) -> bool {
        &&& self.rom@ == rom
        &&& self.kind == detected_kind(rom)
        &&& self.has_rtc == contains_bytes(rom, rtc_tag())
        &&& self.save@ == Seq::new(
            if save_size(self.kind) > 1 {
                save_size(self.kind) as nat
            } else {
                1
            },
            |i: int| 0xffu8,
        )
        &&& !self.save_dirty
        &&& self.flash == (FlashChip {
            state: FlashState::Ready,
            id_mode: false,
            erase_armed: false,
            bank: 0,
        })
        &&& self.eeprom == (EepromChip { state: EepromState::Ready, address: 0, buffer: 0, bits: 0 })
    }

    /// Builds a cartridge, sizing backup memory from the ROM's save tag.
    pub fn new(rom: Vec<u8>) -> (cart: Self)
        ensures
            cart.wf(),
            cart.fresh(rom@),
    {
        let kind = detect_save(rom.as_slice());
        let tag: [u8; 8] = [0x53, 0x49, 0x49, 0x52, 0x54, 0x43, 0x5f, 0x56];
        assert(tag@ =~= rtc_tag());
        let has_rtc = contains(rom.as_slice(), tag.as_slice());
        let size = kind.size();
        let save = filled(0xff, if size > 1 { size } else { 1 });
        Cart {
            rom,
            save,
            kind,
            save_dirty: false,
            flash: FlashChip { state: FlashState::Ready, id_mode: false, erase_armed: false, bank: 0 },
            eeprom: EepromChip { state: EepromState::Ready, address: 0, buffer: 0, bits: 0 },
            rtc: Rtc::new(),
            has_rtc,
        }
    }

    /// Copies a save file in, as far as both the file and memory go.
    pub fn load_save(&mut self, data: &[u8])
        requires
            old(self).wf(),
        ensures
            final(self).wf(),
            final(self).save@.len() == old(self).save@.len(),
            forall|i: int|
                0 <= i < old(self).save@.len() ==> #[trigger] final(self).save@[i] == if i
                    < data@.len() {
                    data@[i]
                } else {
                    old(self).save@[i]
                },
            final(self).kind == old(self).kind,
            final(self).rom == old(self).rom,
            final(self).flash == old(self).flash,
            final(self).eeprom == old(self).eeprom,
            final(self).has_rtc == old(self).has_rtc,
            final(self).save_dirty == old(self).save_dirty,
    {
        let length = if data.len() < self.save.len() {
            data.len()
        } else {
            self.save.len()
        };
        let mut index: usize = 0;
        while index < length
            invariant
                length <= data@.len(),
                length <= self.save@.len(),
                index <= length,
                self.save@.len() == old(self).save@.len(),
                self.kind == old(self).kind,
                self.rom == old(self).rom,
                self.flash == old(self).flash,
                self.eeprom == old(self).eeprom,
                self.rtc == old(self).rtc,
                self.has_rtc == old(self).has_rtc,
                self.save_dirty == old(self).save_dirty,
                forall|i: int|
                    0 <= i < old(self).save@.len() ==> #[trigger] self.save@[i] == if i < index {
                        data@[i]
                    } else {
                        old(self).save@[i]
                    },
            decreases length - index,
        {
            self.save[index] = data[index];
            index = index + 1;
        }
    }

    /// True when a read of this ROM address is really an EEPROM access.
    pub fn is_eeprom_address(&self, address: u32) -> (r: bool)
        ensures
            r == self.eeprom_at(address),
    {
        if !(self.kind == SaveKind::Eeprom512 || self.kind == SaveKind::Eeprom8k) {
            return false;
        }
        let offset = address & 0x01ff_ffff;
        if self.rom.len() > 0x0100_0000 {
            0x0d00_0000 <= address && address <= 0x0dff_ffff && offset >= 0x01ff_ff00
        } else {
            0x0d00_0000 <= address && address <= 0x0dff_ffff
        }
    }

    pub fn read_rom8(&self, address: u32) -> (value: u8)
        ensures
            value == self.rom_byte(address),
    {
        let offset = address & 0x01ff_ffff;
        if self.has_rtc && 0xc4 <= offset && offset < 0xca {
            let half = self.rtc.read((offset & !1u32) as usize);
            return if offset & 1 != 0 {
                (half >> 8u16) as u8
            } else {
                half as u8
            };
        }
        if (offset as usize) < self.rom.len() {
            self.rom[offset as usize]
        } else {
            // Out of bounds reads see the low half of the address.
            let index = (address / 2) as u16;
            if address & 1 != 0 {
                (index >> 8u16) as u8
            } else {
                index as u8
            }
        }
    }

    pub fn read_rom16(&self, address: u32) -> (value: u16)
        ensures
            value == self.rom_half(address),
    {
        let offset = address & 0x01ff_fffe;
        if self.has_rtc && 0xc4 <= offset && offset < 0xca {
            return self.rtc.read(offset as usize);
        }
        if (offset as usize) < self.rom.len() && (offset as usize) + 1 < self.rom.len() {
            (self.rom[offset as usize] as u16) | ((self.rom[offset as usize + 1] as u16) << 8u16)
        } else {
            (address / 2) as u16
        }
    }

    /// Writes to the ROM window only reach the clock's GPIO registers.
    pub fn write_rom16(&mut self, address: u32, value: u16)
        requires
            old(self).wf(),
        ensures
            final(self).wf(),
            rom_written(&*old(self), address, value, &*final(self)),
    {
        let offset = address & 0x01ff_fffe;
        if self.has_rtc && 0xc4 <= offset && offset < 0xca {
            self.rtc.write(offset as usize, value);
        }
    }

    pub fn read_save(&mut self, address: u32) -> (value: u8)
        requires
            old(self).wf(),
        ensures
            *final(self) == *old(self),
            value == old(self).save_byte(address),
    {
        proof {
            crate::bits::lemma_and_le_u32(address, 0x7fff);
            crate::bits::lemma_and_le_u32(address, 0xffff);
        }
        if self.kind == SaveKind::Sram {
            self.save[(address & 0x7fff) as usize]
        } else if self.kind == SaveKind::Flash64 || self.kind == SaveKind::Flash128 {
            let offset = (address & 0xffff) as usize;
            if self.flash.id_mode && offset < 2 {
                let (manufacturer, device) = if self.kind == SaveKind::Flash128 {
                    (0x62u8, 0x13u8)
                } else {
                    (0x32u8, 0x1bu8)
                };
                return if offset == 0 {
                    manufacturer
                } else {
                    device
                };
            }
            self.save[self.flash.bank * 0x10000 + offset]
        } else {
            0xff
        }
    }

    pub fn write_save(&mut self, address: u32, value: u8)
        requires
            old(self).wf(),
        ensures
            final(self).wf(),
            save_written(&*old(self), address, value, &*final(self)),
    {
        proof {
            crate::bits::lemma_and_le_u32(address, 0x7fff);
        }
        if self.kind == SaveKind::Sram {
            self.save[(address & 0x7fff) as usize] = value;
            self.save_dirty = true;
        } else if self.kind == SaveKind::Flash64 || self.kind == SaveKind::Flash128 {
            self.write_flash(address, value);
        }
    }

    fn fill_range(&mut self, base: usize, end: usize)
        requires
            base <= end <= old(self).save@.len(),
        ensures
            final(self).save@ == erased(old(self).save@, base as int, end as int),
            final(self).rom == old(self).rom,
            final(self).kind == old(self).kind,
            final(self).save_dirty == old(self).save_dirty,
            final(self).flash == old(self).flash,
            final(self).eeprom == old(self).eeprom,
            final(self).rtc == old(self).rtc,
            final(self).has_rtc == old(self).has_rtc,
    {
        let mut index = base;
        while index < end
            invariant
                base <= index <= end,
                end <= self.save@.len(),
                self.save@.len() == old(self).save@.len(),
                self.rom == old(self).rom,
                self.kind == old(self).kind,
                self.save_dirty == old(self).save_dirty,
                self.flash == old(self).flash,
                self.eeprom == old(self).eeprom,
                self.rtc == old(self).rtc,
                self.has_rtc == old(self).has_rtc,
                self.save@ == erased(old(self).save@, base as int, index as int),
            decreases end - index,
        {
            self.save[index] = 0xff;
            index = index + 1;
            assert(self.save@ =~= erased(old(self).save@, base as int, index as int));
        }
    }

    fn write_flash(&mut self, address: u32, value: u8)
        requires
            old(self).wf(),
            is_flash_kind(old(self).kind),
        ensures
            final(self).wf(),
            final(self).rom == old(self).rom,
            final(self).kind == old(self).kind,
            final(self).eeprom == old(self).eeprom,
            final(self).rtc == old(self).rtc,
            final(self).has_rtc == old(self).has_rtc,
            ({
                let (chip, save, dirty) = flash_write_spec(
                    old(self).flash,
                    old(self).kind,
                    old(self).save@,
                    (address & 0xffff) as int,
                    value,
                );
                final(self).flash == chip && final(self).save@ == save && final(self).save_dirty
                    == (old(self).save_dirty || dirty)
            }),
    {
        proof {
            crate::bits::lemma_and_le_u32(address, 0xffff);
        }
        let offset = (address & 0xffff) as usize;
        let state = self.flash.state;
        if state == FlashState::WriteByte {
            let index = self.flash.bank * 0x10000 + offset;
            let current = self.save[index];
            self.save[index] = current & value;
            self.save_dirty = true;
            self.flash.state = FlashState::Ready;
            return;
        }
        if state == FlashState::BankSelect {
            if offset == 0 && self.kind == SaveKind::Flash128 {
                proof {
                    crate::bits::lemma_and_le_u8(value, 1);
                }
                self.flash.bank = (value & 1) as usize;
            }
            self.flash.state = FlashState::Ready;
            return;
        }
        if state == FlashState::Ready && offset == 0x5555 && value == 0xaa {
            self.flash.state = FlashState::Command1;
        } else if state == FlashState::Command1 && offset == 0x2aaa && value == 0x55 {
            self.flash.state = FlashState::Command2;
        } else if state == FlashState::Command2 && offset == 0x5555 {
            self.flash.state = FlashState::Ready;
            if value == 0x90 {
                self.flash.id_mode = true;
            } else if value == 0xf0 {
                self.flash.id_mode = false;
            } else if value == 0x80 {
                self.flash.erase_armed = true;
            } else if value == 0x10 && self.flash.erase_armed {
                let length = self.save.len();
                self.fill_range(0, length);
                self.save_dirty = true;
                self.flash.erase_armed = false;
            } else if value == 0xa0 {
                self.flash.state = FlashState::WriteByte;
            } else if value == 0xb0 {
                self.flash.state = FlashState::BankSelect;
            } else {
                self.flash.erase_armed = false;
            }
        } else if state == FlashState::Command2 && value == 0x30 && self.flash.erase_armed {
            let sector = offset & 0xf000;
            assert(sector == (offset / 0x1000) * 0x1000) by (bit_vector)
                requires
                    sector == offset & 0xf000,
                    offset < 0x10000,
            ;
            let base = self.flash.bank * 0x10000 + sector;
            let end = if base + 0x1000 < self.save.len() {
                base + 0x1000
            } else {
                self.save.len()
            };
            self.fill_range(base, end);
            self.save_dirty = true;
            self.flash.erase_armed = false;
            self.flash.state = FlashState::Ready;
        } else {
            self.flash.state = FlashState::Ready;
        }
    }

    fn eeprom_address_bits(&self) -> (bits: u32)
        ensures
            bits == address_bits(self.kind),
    {
        if self.kind == SaveKind::Eeprom8k {
            14
        } else {
            6
        }
    }

    /// EEPROM is bit serial; the game drives it with 16 bit DMA bursts.
    pub fn read_eeprom(&mut self) -> (bit: u16)
        requires
            old(self).wf(),
        ensures
            final(self).wf(),
            (bit, final(self).eeprom) == eeprom_read_spec(old(self).eeprom, old(self).save@),
            final(self).rom == old(self).rom,
            final(self).save == old(self).save,
            final(self).kind == old(self).kind,
            final(self).save_dirty == old(self).save_dirty,
            final(self).flash == old(self).flash,
            final(self).rtc == old(self).rtc,
            final(self).has_rtc == old(self).has_rtc,
    {
        let state = self.eeprom.state;
        if state == EepromState::ReadDummy {
            self.eeprom.bits = self.eeprom.bits.wrapping_add(1);
            if self.eeprom.bits == 4 {
                self.eeprom.bits = 0;
                self.eeprom.state = EepromState::Read;
            }
            0
        } else if state == EepromState::Read {
            let byte = self.eeprom.address * 8 + (self.eeprom.bits / 8) as usize;
            let bit = 7 - (self.eeprom.bits % 8);
            self.eeprom.bits = self.eeprom.bits.wrapping_add(1);
            if self.eeprom.bits == 64 {
                self.eeprom.bits = 0;
                self.eeprom.state = EepromState::Ready;
            }
            let value = if byte < self.save.len() {
                self.save[byte]
            } else {
                0xff
            };
            ((value >> bit as u8) & 1) as u16
        } else {
            1
        }
    }

    fn write_block(&mut self, address: usize, value: u64)
        requires
            address < 0x400,
        ensures
            final(self).save@ == block_written(old(self).save@, address as int, value),
            final(self).rom == old(self).rom,
            final(self).kind == old(self).kind,
            final(self).save_dirty == old(self).save_dirty,
            final(self).flash == old(self).flash,
            final(self).eeprom == old(self).eeprom,
            final(self).rtc == old(self).rtc,
            final(self).has_rtc == old(self).has_rtc,
    {
        let base = address * 8;
        let mut index: usize = 0;
        while index < 8
            invariant
                index <= 8,
                base == address * 8,
                address < 0x400,
                self.save@.len() == old(self).save@.len(),
                self.rom == old(self).rom,
                self.kind == old(self).kind,
                self.save_dirty == old(self).save_dirty,
                self.flash == old(self).flash,
                self.eeprom == old(self).eeprom,
                self.rtc == old(self).rtc,
                self.has_rtc == old(self).has_rtc,
                forall|i: int|
                    0 <= i < self.save@.len() ==> #[trigger] self.save@[i] == if base <= i < base
                        + index {
                        be64_byte(value, i - base)
                    } else {
                        old(self).save@[i]
                    },
            decreases 8 - index,
        {
            if base + index < self.save.len() {
                self.save[base + index] = (value >> (56 - 8 * index) as u64) as u8;
            }
            index = index + 1;
        }
        assert(self.save@ =~= block_written(old(self).save@, address as int, value));
    }

    pub fn write_eeprom(&mut self, value: u16)
        requires
            old(self).wf(),
        ensures
            final(self).wf(),
            eeprom_written(&*old(self), value, &*final(self)),
    {
        let bit = (value & 1) as u64;
        let shifted = (self.eeprom.buffer << 1u64) | bit;
        let state = self.eeprom.state;
        let width = self.eeprom_address_bits();
        if state == EepromState::Ready {
            self.eeprom.buffer = shifted;
            self.eeprom.bits = self.eeprom.bits.wrapping_add(1);
            if self.eeprom.bits == 2 {
                let request = self.eeprom.buffer & 3;
                self.eeprom.bits = 0;
                self.eeprom.buffer = 0;
                if request == 3 {
                    self.eeprom.state = EepromState::Address;
                } else if request == 2 {
                    self.eeprom.state = EepromState::Write;
                }
            }
        } else if state == EepromState::Address {
            if self.eeprom.bits < width {
                self.eeprom.buffer = shifted;
                self.eeprom.bits = self.eeprom.bits.wrapping_add(1);
                if self.eeprom.bits == width {
                    assert((shifted & 0x3ff) < 0x400) by (bit_vector);
                    self.eeprom.address = (self.eeprom.buffer & 0x3ff) as usize;
                    self.eeprom.buffer = 0;
                }
            } else {
                self.eeprom.bits = 0;
                self.eeprom.buffer = 0;
                self.eeprom.state = EepromState::ReadDummy;
            }
        } else if state == EepromState::Write {
            if self.eeprom.bits < width {
                self.eeprom.buffer = shifted;
                self.eeprom.bits = self.eeprom.bits.wrapping_add(1);
                if self.eeprom.bits == width {
                    assert((shifted & 0x3ff) < 0x400) by (bit_vector);
                    self.eeprom.address = (self.eeprom.buffer & 0x3ff) as usize;
                    self.eeprom.buffer = 0;
                }
            } else if self.eeprom.bits < width + 64 {
                self.eeprom.buffer = shifted;
                self.eeprom.bits = self.eeprom.bits.wrapping_add(1);
                if self.eeprom.bits == width + 64 {
                    let address = self.eeprom.address;
                    self.write_block(address, shifted);
                    self.save_dirty = true;
                    self.eeprom.buffer = 0;
                }
            } else {
                self.eeprom.bits = 0;
                self.eeprom.buffer = 0;
                self.eeprom.state = EepromState::Ready;
            }
        } else {
            self.eeprom.bits = 0;
            self.eeprom.buffer = 0;
            self.eeprom.state = EepromState::Ready;
        }
    }
}

/// A byte written to the backup window at `address`: SRAM stores it, flash
/// runs its command state machine, anything else ignores it.
pub open spec fn save_written(a: &Cart, address: u32, value: u8, b: &Cart) -> bool {
    &&& b.rom == a.rom
    &&& b.kind == a.kind
    &&& b.eeprom == a.eeprom
    &&& b.rtc == a.rtc
    &&& b.has_rtc == a.has_rtc
    &&& a.kind == SaveKind::Sram ==> b.save@ == a.save@.update(
            (address & 0x7fff) as int,
            value,
        ) && b.save_dirty && b.flash == a.flash
    &&& is_flash_kind(a.kind) ==> ({
            let (chip, save, dirty) = flash_write_spec(
                a.flash,
                a.kind,
                a.save@,
                (address & 0xffff) as int,
                value,
            );
            b.flash == chip && b.save@ == save && b.save_dirty
                == (a.save_dirty || dirty)
        })
    &&& !(a.kind == SaveKind::Sram || is_flash_kind(a.kind)) ==> *b
            == *a
}

/// A halfword written to the ROM window: only the clock's GPIO registers
/// take it.
pub open spec fn rom_written(a: &Cart, address: u32, value: u16, b: &Cart) -> bool {
    &&& b.rom == a.rom
    &&& b.save == a.save
    &&& b.kind == a.kind
    &&& b.save_dirty == a.save_dirty
    &&& b.flash == a.flash
    &&& b.eeprom == a.eeprom
    &&& b.has_rtc == a.has_rtc
    &&& !(a.has_rtc && 0xc4 <= (address & 0x01ff_fffe) < 0xca) ==> b.rtc
            == a.rtc
    &&& a.has_rtc && 0xc4 <= (address & 0x01ff_fffe) < 0xca ==> gpio_written(
            &a.rtc,
            (address & 0x01ff_fffe) as int,
            value,
            &b.rtc,
        )
}

/// One bit clocked into the EEPROM, as `eeprom_write_spec` says.
pub open spec fn eeprom_written(a: &Cart, value: u16, b: &Cart) -> bool {
    &&& {
            let (chip, save, dirty) = eeprom_write_spec(
                a.eeprom,
                a.kind,
                a.save@,
                value,
            );
            b.eeprom == chip && b.save@ == save && b.save_dirty
                == (a.save_dirty || dirty)
        }
    &&& b.rom == a.rom
    &&& b.kind == a.kind
    &&& b.flash == a.flash
    &&& b.rtc == a.rtc
    &&& b.has_rtc == a.has_rtc
}

// ------------------------------------------------------------- snapshots

/// The number a clock state is saved as.
pub open spec fn rtc_state_code(state: RtcState) -> u8 {
    match state {
        RtcState::Idle => 0,
        RtcState::Command => 1,
        RtcState::Transfer => 2,
    }
}

/// The bytes a clock is saved as, followed by `rest`.
pub open spec fn rtc_then(r: &Rtc, rest: Seq<u8>) -> Seq<u8> {
    le16(r.data) + (le16(r.direction) + (seq![bool_byte(r.readable)] + (seq![
        rtc_state_code(r.state),
    ] + (seq![r.command] + (le32(r.bits) + (seq![r.buffer] + rtc_transfer_then(r, rest)))))))
}

/// The clock's transfer in progress and its pins.
pub open spec fn rtc_transfer_then(r: &Rtc, rest: Seq<u8>) -> Seq<u8> {
    le32(r.byte_index as u32) + (block_bytes(r.transfer@) + (seq![bool_byte(r.reading)] + (seq![
        r.control,
    ] + (seq![bool_byte(r.last_sck)] + (seq![bool_byte(r.last_cs)] + rest)))))
}

/// The bytes a cartridge is saved as, followed by `rest`: everything but
/// the ROM, which comes from the machine loading the state.
pub open spec fn cart_then(c: &Cart, rest: Seq<u8>) -> Seq<u8> {
    seq![kind_code(c.kind)] + cart_after_kind(c, rest)
}

impl Rtc {
    /// Every field a state holds is the one `saved` has.
    pub open spec fn restored(&self, saved: &Rtc) -> bool {
        &&& self.data == saved.data
        &&& self.direction == saved.direction
        &&& self.readable == saved.readable
        &&& self.state == saved.state
        &&& self.command == saved.command
        &&& self.bits == saved.bits
        &&& self.buffer == saved.buffer
        &&& self.byte_index == saved.byte_index
        &&& self.transfer@ == saved.transfer@
        &&& self.reading == saved.reading
        &&& self.control == saved.control
        &&& self.last_sck == saved.last_sck
        &&& self.last_cs == saved.last_cs
    }

    /// A state holds the transfer position in 32 bits.
    pub open spec fn storable(&self) -> bool {
        self.byte_index <= 0xffff_ffff
    }
}

impl Cart {
    /// Every field a state holds is the one `saved` has; the ROM is the
    /// machine's own.
    pub open spec fn restored(&self, saved: &Cart) -> bool {
        &&& self.save@ == saved.save@
        &&& self.kind == saved.kind
        &&& self.flash == saved.flash
        &&& self.eeprom == saved.eeprom
        &&& self.rtc.restored(&saved.rtc)
        &&& self.has_rtc == saved.has_rtc
    }

    /// A state holds the backup memory's length and the clock's transfer
    /// position in 32 bits.
    pub open spec fn storable(&self) -> bool {
        &&& self.save@.len() <= 0xffff_ffff
        &&& self.rtc.storable()
    }
}

impl Snapshot for Rtc {
    fn save(&self, writer: &mut Writer)
        ensures
            forall|rest: Seq<u8>|
                old(writer).data@ + #[trigger] rtc_then(self, rest) == final(writer).data@ + rest,
    {
        let ghost d = writer.data@;
        writer.u16(self.data);
        writer.u16(self.direction);
        writer.bool(self.readable);
        let state: u8 = match self.state {
            RtcState::Idle => 0,
            RtcState::Command => 1,
            RtcState::Transfer => 2,
        };
        assert(state == rtc_state_code(self.state));
        writer.u8(state);
        writer.u8(self.command);
        writer.u32(self.bits);
        writer.u8(self.buffer);
        writer.usize(self.byte_index);
        writer.bytes(self.transfer.as_slice());
        writer.bool(self.reading);
        writer.u8(self.control);
        writer.bool(self.last_sck);
        writer.bool(self.last_cs);
        assert forall|rest: Seq<u8>|
            d + #[trigger] rtc_then(self, rest) == writer.data@ + rest by {}
    }

    fn load(&mut self, reader: &mut Reader) -> (result: Result<(), StateError>)
        ensures
            final(self).wf() || result is Err,
            old(self).wf() ==> final(self).wf(),
            forall|saved: Rtc, rest: Seq<u8>| #[trigger]
                old(reader).expects(rtc_then(&saved, rest)) && saved.wf() && saved.storable()
                    ==> result is Ok && final(self).restored(&saved) && final(reader).expects(rest),
    {
        let ghost r0 = *reader;
        let data = reader.u16()?;
        let ghost r1 = *reader;
        let direction = reader.u16()?;
        let ghost r2 = *reader;
        let readable = reader.bool()?;
        let ghost r3 = *reader;
        let state = reader.u8()?;
        let ghost r4 = *reader;
        let command = reader.u8()?;
        let ghost r5 = *reader;
        let bits = reader.u32()?;
        let ghost r6 = *reader;
        let buffer = reader.u8()?;
        let ghost r7 = *reader;
        let byte_index = reader.usize()?;
        let ghost r8 = *reader;
        let mut transfer: Vec<u8> = Vec::new();
        reader.into_vec(&mut transfer)?;
        let ghost r9 = *reader;
        let reading = reader.bool()?;
        let ghost r10 = *reader;
        let control = reader.u8()?;
        let ghost r11 = *reader;
        let last_sck = reader.bool()?;
        let ghost r12 = *reader;
        let last_cs = reader.bool()?;
        proof {
            assert forall|saved: Rtc, rest: Seq<u8>| #[trigger]
                r0.expects(rtc_then(&saved, rest)) && saved.wf() && saved.storable() implies data
                == saved.data && direction == saved.direction && readable == saved.readable && state
                == rtc_state_code(saved.state) && command == saved.command && bits == saved.bits
                && buffer == saved.buffer && byte_index == saved.byte_index && transfer@
                == saved.transfer@ && reading == saved.reading && control == saved.control
                && last_sck == saved.last_sck && last_cs == saved.last_cs && reader.expects(rest) by {
                let s12 = seq![bool_byte(saved.last_cs)] + rest;
                let s11 = seq![bool_byte(saved.last_sck)] + s12;
                let s10 = seq![saved.control] + s11;
                let s9 = seq![bool_byte(saved.reading)] + s10;
                let s8 = block_bytes(saved.transfer@) + s9;
                let s7 = le32(saved.byte_index as u32) + s8;
                let s6 = seq![saved.buffer] + s7;
                let s5 = le32(saved.bits) + s6;
                let s4 = seq![saved.command] + s5;
                let s3 = seq![rtc_state_code(saved.state)] + s4;
                let s2 = seq![bool_byte(saved.readable)] + s3;
                let s1 = le16(saved.direction) + s2;
                assert(r0.expects(le16(saved.data) + s1));
                assert(r1.expects(s1));
                assert(r2.expects(s2));
                assert(r3.expects(s3));
                assert(r4.expects(s4));
                assert(r5.expects(s5));
                assert(r6.expects(s6));
                assert(r7.expects(s7));
                assert(r8.expects(s8));
                assert(r9.expects(s9));
                assert(r10.expects(s10));
                assert(r11.expects(s11));
                assert(r12.expects(s12));
            }
        }
        if transfer.len() > 8 {
            return Err(StateError::NotAState);
        }
        self.data = data;
        self.direction = direction;
        self.readable = readable;
        self.state = if state == 1 {
            RtcState::Command
        } else if state == 2 {
            RtcState::Transfer
        } else {
            RtcState::Idle
        };
        self.command = command;
        self.bits = bits;
        self.buffer = buffer;
        self.byte_index = byte_index;
        self.transfer = transfer;
        self.reading = reading;
        self.control = control;
        self.last_sck = last_sck;
        self.last_cs = last_cs;
        Ok(())
    }
}

impl Snapshot for Cart {
    fn save(&self, writer: &mut Writer)
        ensures
            forall|rest: Seq<u8>|
                old(writer).data@ + #[trigger] cart_then(self, rest) == final(writer).data@ + rest,
    {
        let ghost d = writer.data@;
        writer.u8(self.kind.code());
        writer.bytes(self.save.as_slice());
        writer.u8(self.flash.state.code());
        writer.bool(self.flash.id_mode);
        writer.bool(self.flash.erase_armed);
        writer.usize(self.flash.bank);
        writer.u8(self.eeprom.state.code());
        writer.usize(self.eeprom.address);
        writer.u64(self.eeprom.buffer);
        writer.u32(self.eeprom.bits);
        writer.bool(self.has_rtc);
        let ghost middle = writer.data@;
        self.rtc.save(writer);
        assert forall|rest: Seq<u8>|
            d + #[trigger] cart_then(self, rest) == writer.data@ + rest by {
            assert(d + cart_then(self, rest) == middle + rtc_then(&self.rtc, rest));
        }
    }

    /// Loads the cartridge's state, refusing one whose backup memory does
    /// not fit its chip rather than failing later.
    #[verifier::spinoff_prover]
    #[verifier::rlimit(100)]
    fn load(&mut self, reader: &mut Reader) -> (result: Result<(), StateError>)
        ensures
            old(self).wf() ==> final(self).wf(),
            final(self).rom == old(self).rom,
            forall|saved: Cart, rest: Seq<u8>| #[trigger]
                old(reader).expects(cart_then(&saved, rest)) && saved.wf() && saved.storable()
                    ==> result is Ok && final(self).restored(&saved) && final(reader).expects(rest),
    {
        let ghost r0 = *reader;
        let kind = reader.u8();
        let ghost r1 = *reader;
        proof {
            assert forall|saved: Cart, rest: Seq<u8>| #[trigger]
                r0.expects(cart_then(&saved, rest)) && saved.wf() && saved.storable() implies kind
                == Ok::<u8, StateError>(kind_code(saved.kind)) && r1.expects(cart_after_kind(&saved, rest)) by {
                assert(r0.expects(seq![kind_code(saved.kind)] + cart_after_kind(&saved, rest)));
            }
        }
        let kind = SaveKind::from_code(kind?);
        let mut save: Vec<u8> = Vec::new();
        let saved_data = reader.into_vec(&mut save);
        let ghost r2 = *reader;
        proof {
            assert forall|saved: Cart, rest: Seq<u8>| #[trigger]
                r0.expects(cart_then(&saved, rest)) && saved.wf() && saved.storable() implies kind
                == saved.kind && saved_data is Ok && save@ == saved.save@ && r2.expects(
                cart_after_save(&saved, rest),
            ) by {
                assert(r1.expects(cart_after_kind(&saved, rest)));
                assert(r1.expects(block_bytes(saved.save@) + cart_after_save(&saved, rest)));
                law_kind_code_round_trip(saved.kind);
            }
        }
        saved_data?;
        let chips = read_chips(reader);
        let ghost r3 = *reader;
        proof {
            assert forall|saved: Cart, rest: Seq<u8>| #[trigger]
                r0.expects(cart_then(&saved, rest)) && saved.wf() && saved.storable() implies chips
                == Ok::<(FlashChip, u32, EepromChip, bool), StateError>(
                (saved.flash, saved.flash.bank as u32, saved.eeprom, saved.has_rtc),
            ) && r3.expects(rtc_then(&saved.rtc, rest)) by {
                assert(r2.expects(cart_after_save(&saved, rest)));
            }
        }
        let (flash, raw_bank, eeprom, has_rtc) = chips?;
        let fits = match kind {
            SaveKind::Sram => save.len() >= 0x8000,
            SaveKind::Flash64 => save.len() >= 0x10000 && flash.bank == 0,
            SaveKind::Flash128 => save.len() >= 0x20000,
            _ => true,
        };
        if !fits || eeprom.address >= 0x400 {
            return Err(StateError::NotAState);
        }
        let ghost before = *self;
        self.rtc.load(reader)?;
        self.kind = kind;
        self.save = save;
        self.flash = flash;
        self.eeprom = eeprom;
        self.has_rtc = has_rtc;
        self.save_dirty = true;
        Ok(())
    }
}

pub open spec fn cart_after_kind(c: &Cart, rest: Seq<u8>) -> Seq<u8> {
    block_bytes(c.save@) + cart_after_save(c, rest)
}

pub open spec fn cart_after_save(c: &Cart, rest: Seq<u8>) -> Seq<u8> {
    flash_then(c.flash, eeprom_then(c.eeprom, seq![bool_byte(c.has_rtc)] + rtc_then(&c.rtc, rest)))
}

/// The flash and EEPROM registers and the clock's presence.
fn read_chips(reader: &mut Reader) -> (result: Result<(FlashChip, u32, EepromChip, bool), StateError>)
    requires
        old(reader).wf(),
    ensures
        final(reader).wf(),
        result is Ok ==> result->Ok_0.0.bank <= 1,
        forall|saved: Cart, rest: Seq<u8>| #[trigger]
            old(reader).expects(cart_after_save(&saved, rest)) && saved.wf() && saved.storable()
                ==> result == Ok::<(FlashChip, u32, EepromChip, bool), StateError>(
                (saved.flash, saved.flash.bank as u32, saved.eeprom, saved.has_rtc),
            ) && final(reader).expects(rtc_then(&saved.rtc, rest)),
{
    let ghost r0 = *reader;
    let flash = read_flash(reader);
    let ghost r1 = *reader;
    proof {
        assert forall|saved: Cart, rest: Seq<u8>| #[trigger]
            r0.expects(cart_after_save(&saved, rest)) && saved.wf() && saved.storable() implies flash
            == Ok::<(FlashChip, u32), StateError>((saved.flash, saved.flash.bank as u32))
            && r1.expects(eeprom_then(saved.eeprom, seq![bool_byte(saved.has_rtc)] + rtc_then(&saved.rtc, rest))) by {
            assert(r0.expects(flash_then(saved.flash, eeprom_then(saved.eeprom, seq![bool_byte(saved.has_rtc)] + rtc_then(&saved.rtc, rest)))));
        }
    }
    let (flash, raw_bank) = flash?;
    let eeprom = read_eeprom_chip(reader);
    let ghost r2 = *reader;
    proof {
        assert forall|saved: Cart, rest: Seq<u8>| #[trigger]
            r0.expects(cart_after_save(&saved, rest)) && saved.wf() && saved.storable() implies eeprom
            == Ok::<EepromChip, StateError>(saved.eeprom)
            && r2.expects(seq![bool_byte(saved.has_rtc)] + rtc_then(&saved.rtc, rest)) by {
            assert(r1.expects(eeprom_then(saved.eeprom, seq![bool_byte(saved.has_rtc)] + rtc_then(&saved.rtc, rest))));
        }
    }
    let eeprom = eeprom?;
    let has_rtc = reader.bool()?;
    proof {
        assert forall|saved: Cart, rest: Seq<u8>| #[trigger]
            r0.expects(cart_after_save(&saved, rest)) && saved.wf() && saved.storable() implies has_rtc
            == saved.has_rtc && reader.expects(rtc_then(&saved.rtc, rest)) by {
            assert(r2.expects(seq![bool_byte(saved.has_rtc)] + rtc_then(&saved.rtc, rest)));
        }
    }
    Ok((flash, raw_bank, eeprom, has_rtc))
}

/// The bytes the flash registers are saved as.
pub open spec fn flash_then(f: FlashChip, rest: Seq<u8>) -> Seq<u8> {
    seq![flash_code(f.state)] + (seq![bool_byte(f.id_mode)] + (seq![bool_byte(f.erase_armed)] + (
    le32(f.bank as u32) + rest)))
}

/// The bytes the EEPROM registers are saved as.
pub open spec fn eeprom_then(e: EepromChip, rest: Seq<u8>) -> Seq<u8> {
    seq![eeprom_code(e.state)] + (le32(e.address as u32) + (le64(e.buffer) + (le32(e.bits) + rest)))
}

/// The flash registers; a bank beyond the second is read as its low bit.
#[verifier::spinoff_prover]
#[verifier::rlimit(50)]
fn read_flash(reader: &mut Reader) -> (result: Result<(FlashChip, u32), StateError>)
    requires
        old(reader).wf(),
    ensures
        final(reader).wf(),
        result is Ok ==> result->Ok_0.0.bank <= 1,
        forall|saved: FlashChip, rest: Seq<u8>| #[trigger]
            old(reader).expects(flash_then(saved, rest)) && saved.bank <= 1 ==> result == Ok::<
                (FlashChip, u32),
                StateError,
            >((saved, saved.bank as u32)) && final(reader).expects(rest),
{
    let ghost r0 = *reader;
    let code = reader.u8()?;
    let ghost r1 = *reader;
    let id_mode = reader.bool()?;
    let ghost r2 = *reader;
    let erase_armed = reader.bool()?;
    let ghost r3 = *reader;
    let raw_bank = reader.u32()?;
    let bank = (raw_bank % 2) as usize;
    let flash = FlashChip { state: FlashState::from_code(code), id_mode, erase_armed, bank };
    proof {
        assert forall|saved: FlashChip, rest: Seq<u8>| #[trigger]
            r0.expects(flash_then(saved, rest)) && saved.bank <= 1 implies flash == saved && raw_bank
            == saved.bank as u32 && reader.expects(rest) by {
            let s3 = le32(saved.bank as u32) + rest;
            let s2 = seq![bool_byte(saved.erase_armed)] + s3;
            let s1 = seq![bool_byte(saved.id_mode)] + s2;
            assert(r0.expects(seq![flash_code(saved.state)] + s1));
            assert(r1.expects(s1));
            assert(r2.expects(s2));
            assert(r3.expects(s3));
            law_flash_code_round_trip(saved.state);
        }
    }
    Ok((flash, raw_bank))
}

/// The EEPROM registers.
#[verifier::spinoff_prover]
#[verifier::rlimit(50)]
fn read_eeprom_chip(reader: &mut Reader) -> (result: Result<EepromChip, StateError>)
    requires
        old(reader).wf(),
    ensures
        final(reader).wf(),
        forall|saved: EepromChip, rest: Seq<u8>| #[trigger]
            old(reader).expects(eeprom_then(saved, rest)) && saved.address < 0x400 ==> result
                == Ok::<EepromChip, StateError>(saved) && final(reader).expects(rest),
{
    let ghost r0 = *reader;
    let code = reader.u8()?;
    let ghost r1 = *reader;
    let address = reader.usize()?;
    let ghost r2 = *reader;
    let buffer = reader.u64()?;
    let ghost r3 = *reader;
    let bits = reader.u32()?;
    let eeprom = EepromChip { state: EepromState::from_code(code), address, buffer, bits };
    proof {
        assert forall|saved: EepromChip, rest: Seq<u8>| #[trigger]
            r0.expects(eeprom_then(saved, rest)) && saved.address < 0x400 implies eeprom == saved
            && reader.expects(rest) by {
            let s3 = le32(saved.bits) + rest;
            let s2 = le64(saved.buffer) + s3;
            let s1 = le32(saved.address as u32) + s2;
            assert(r0.expects(seq![eeprom_code(saved.state)] + s1));
            assert(r1.expects(s1));
            assert(r2.expects(s2));
            assert(r3.expects(s3));
            law_eeprom_code_round_trip(saved.state);
        }
    }
    Ok(eeprom)
}

} // verus!
