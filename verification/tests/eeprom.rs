//! The serial EEPROM driven bit by bit, the way a game's DMA bursts drive it.

use fear_gba::cart::{Cart, EepromState, SaveKind};

fn eeprom_cart() -> Cart {
    let mut rom = vec![0u8; 0x400];
    rom[0x200..0x208].copy_from_slice(b"EEPROM_V");
    let cart = Cart::new(rom);
    assert_eq!(cart.kind, SaveKind::Eeprom8k);
    cart
}

fn small_cart() -> Cart {
    let mut cart = eeprom_cart();
    cart.kind = SaveKind::Eeprom512;
    cart.save = vec![0xff; 0x200];
    cart
}

fn send_bits(cart: &mut Cart, value: u64, count: u32) {
    for i in (0..count).rev() {
        cart.write_eeprom((value >> i & 1) as u16);
    }
}

fn write_block(cart: &mut Cart, width: u32, address: u64, data: u64) {
    send_bits(cart, 0b10, 2);
    send_bits(cart, address, width);
    send_bits(cart, data, 64);
    send_bits(cart, 0, 1);
}

fn read_block(cart: &mut Cart, width: u32, address: u64) -> u64 {
    send_bits(cart, 0b11, 2);
    send_bits(cart, address, width);
    send_bits(cart, 0, 1);
    for _ in 0..4 {
        assert_eq!(cart.read_eeprom(), 0);
    }
    let mut value = 0u64;
    for _ in 0..64 {
        value = value << 1 | cart.read_eeprom() as u64;
    }
    value
}

#[test]
fn eeprom_write_then_read_gives_the_block_back() {
    let mut cart = small_cart();
    let data = 0x0123_4567_89ab_cdef;
    write_block(&mut cart, 6, 5, data);
    assert!(cart.save_dirty);
    assert_eq!(cart.eeprom.state, EepromState::Ready);
    assert_eq!(&cart.save[40..48], &data.to_be_bytes());
    assert_eq!(read_block(&mut cart, 6, 5), data);
    assert_eq!(cart.eeprom.state, EepromState::Ready);
}

#[test]
fn eeprom_8k_part_takes_fourteen_address_bits() {
    let mut cart = eeprom_cart();
    let data = 0xfeed_face_dead_beef;
    write_block(&mut cart, 14, 0x3ff, data);
    assert_eq!(&cart.save[0x1ff8..0x2000], &data.to_be_bytes());
    assert_eq!(read_block(&mut cart, 14, 0x3ff), data);
    assert_eq!(read_block(&mut cart, 14, 0), u64::MAX);
}

#[test]
fn eeprom_reports_ready_when_idle() {
    let mut cart = small_cart();
    assert_eq!(cart.read_eeprom(), 1);
}
