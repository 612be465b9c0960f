//! The cartridge clock on the GPIO pins, driven the way a game drives it.

use fear_gba::cart::{date_time_at, Cart};

const DATA: u32 = 0x0800_00c4;
const DIRECTION: u32 = 0x0800_00c6;
const CONTROL: u32 = 0x0800_00c8;
const SCK: u16 = 1;
const SIO: u16 = 2;
const CS: u16 = 4;

fn clock_cart() -> Cart {
    let mut rom = vec![0u8; 0x400];
    rom[0x200..0x208].copy_from_slice(b"SIIRTC_V");
    let mut cart = Cart::new(rom);
    assert!(cart.has_rtc);
    cart.write_rom16(CONTROL, 1);
    cart.write_rom16(DIRECTION, 7);
    cart
}

/// Raises chip select and clocks a command byte in, high bit first.
fn send_command(cart: &mut Cart, command: u8) {
    cart.write_rom16(DATA, 0);
    cart.write_rom16(DATA, CS);
    for i in (0..8).rev() {
        let sio = if command >> i & 1 != 0 { SIO } else { 0 };
        cart.write_rom16(DATA, CS | sio);
        cart.write_rom16(DATA, CS | SCK | sio);
    }
}

/// Clocks one byte out of the clock, low bit first, with SIO as an input.
fn receive_byte(cart: &mut Cart) -> u8 {
    cart.write_rom16(DIRECTION, CS | SCK);
    let mut byte = 0u8;
    for i in 0..8 {
        cart.write_rom16(DATA, CS | SCK);
        cart.write_rom16(DATA, CS);
        let pins = cart.read_rom16(DATA);
        byte |= (((pins >> 1) & 1) as u8) << i;
    }
    byte
}

/// Clocks one byte into the clock, low bit first.
fn send_byte(cart: &mut Cart, byte: u8) {
    for i in 0..8 {
        let sio = if byte >> i & 1 != 0 { SIO } else { 0 };
        cart.write_rom16(DATA, CS | sio);
        cart.write_rom16(DATA, CS | SCK | sio);
    }
}

#[test]
fn the_control_register_reads_back_in_24_hour_mode_after_power_on() {
    let mut cart = clock_cart();
    send_command(&mut cart, 0x63);
    assert_eq!(receive_byte(&mut cart), 0x40);
}

#[test]
fn a_written_control_register_keeps_only_its_writable_bits() {
    let mut cart = clock_cart();
    send_command(&mut cart, 0x62);
    send_byte(&mut cart, 0xff);
    cart.write_rom16(DATA, 0);
    send_command(&mut cart, 0x63);
    assert_eq!(receive_byte(&mut cart), 0x6a);
}

#[test]
fn a_command_sent_low_bit_first_is_understood() {
    let mut cart = clock_cart();
    // 0x63 with its bits reversed.
    send_command(&mut cart, 0xc6);
    assert_eq!(receive_byte(&mut cart), 0x40);
}

#[test]
fn a_reset_clears_the_control_register() {
    let mut cart = clock_cart();
    send_command(&mut cart, 0x60);
    cart.write_rom16(DATA, 0);
    send_command(&mut cart, 0x63);
    assert_eq!(receive_byte(&mut cart), 0x00);
}

#[test]
fn the_pins_read_as_zero_until_reads_are_enabled() {
    let mut rom = vec![0u8; 0x400];
    rom[0x10..0x18].copy_from_slice(b"SIIRTC_V");
    let mut cart = Cart::new(rom);
    cart.write_rom16(DIRECTION, 5);
    assert_eq!(cart.read_rom16(DIRECTION), 0);
    cart.write_rom16(CONTROL, 1);
    assert_eq!(cart.read_rom16(DIRECTION), 5);
    assert_eq!(cart.read_rom16(CONTROL), 1);
}

#[test]
fn the_date_bytes_are_bcd_with_a_weekday() {
    // 2024-02-29 13:45:07 UTC, a Thursday.
    let seconds = 1_709_214_307u64;
    assert_eq!(date_time_at(seconds, 0x40), vec![0x24, 0x02, 0x29, 4, 0x13, 0x45, 0x07]);
    // In 12 hour mode the hour wraps and carries the PM flag.
    assert_eq!(date_time_at(seconds, 0x00), vec![0x24, 0x02, 0x29, 4, 0x81, 0x45, 0x07]);
    // The epoch itself: 1970-01-01, a Thursday, midnight.
    assert_eq!(date_time_at(0, 0x40), vec![0x70, 0x01, 0x01, 4, 0x00, 0x00, 0x00]);
}
