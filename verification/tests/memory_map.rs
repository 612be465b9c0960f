//! Reads, writes and instruction fetches through the bus, region by region.

use fear_gba::{Bus, Gba};

fn bus() -> Bus {
    Gba::new(vec![0; 0x200], None).bus
}

#[test]
fn a_short_bios_image_is_padded_to_sixteen_kilobytes() {
    let bus = Bus::new(vec![0; 0x200], vec![0xaa; 0x100]);
    assert_eq!(bus.bios.len(), 0x4000);
    assert_eq!(bus.bios[0xff], 0xaa);
    assert_eq!(bus.bios[0x100], 0);
    assert_eq!(bus.bios[0x3fff], 0);
}

#[test]
fn bios_reads_from_outside_see_the_last_fetched_word() {
    let mut bus = bus();
    assert_eq!(bus.read32(0x0000_0000), 0xe129_f000);
    assert_eq!(bus.read16(0x0000_0002), 0xe129);
    let image = fear_gba::bios::hle_image();
    let fetched = bus.read32_code(0x0000_0000);
    assert_eq!(fetched, u32::from_le_bytes([image[0], image[1], image[2], image[3]]));
    assert_eq!(bus.read32_code(0x0000_0004), bus.read32(0x0000_0004));
    bus.read32_code(0x0800_0000);
    assert_eq!(bus.read32(0x0000_0000), u32::from_le_bytes([image[4], image[5], image[6], image[7]]));
}

#[test]
fn a_code_fetch_from_the_cartridge_returns_the_rom_and_latches_the_bus() {
    let mut rom = vec![0u8; 0x200];
    rom[0x10..0x14].copy_from_slice(&0x1234_5678u32.to_le_bytes());
    let mut bus = Gba::new(rom, None).bus;
    assert_eq!(bus.read16_code(0x0800_0012), 0x1234);
    assert_eq!(bus.read32(0x0100_0100), 0x1234_1234);
    assert_eq!(bus.read32_code(0x0800_0010), 0x1234_5678);
    assert_eq!(bus.read32(0x0100_0000), 0x1234_5678);
}

#[test]
fn a_word_read_of_work_ram_gives_the_stored_word() {
    let mut bus = bus();
    bus.write32(0x0300_0010, 0xdead_beef);
    assert_eq!(bus.read32(0x0300_0012), 0xdead_beef);
    assert_eq!(bus.read16(0x0300_0012), 0xdead);
    bus.write16(0x0600_0000, 0x7fff);
    assert_eq!(bus.read32(0x0600_0000), 0x0000_7fff);
}

#[test]
fn an_io_byte_write_merges_into_its_register() {
    let mut bus = bus();
    bus.write16(0x0400_0008, 0x1234);
    bus.write8(0x0400_0009, 0xab);
    assert_eq!(bus.read16(0x0400_0008), 0xab34);
    bus.write8(0x0400_0008, 0xcd);
    assert_eq!(bus.read16(0x0400_0008), 0xabcd);
}

#[test]
fn an_io_word_write_sets_both_registers() {
    let mut bus = bus();
    bus.write32(0x0400_0200, 0x0000_0005);
    assert_eq!(bus.interrupt_enable, 5);
    bus.raise_irq(0x5);
    bus.write32(0x0400_0200, 0x0001_0005);
    assert_eq!(bus.interrupt_flags, 0x4);
}

#[test]
fn writes_to_the_bios_and_rom_change_nothing() {
    let mut bus = bus();
    let before = bus.read32(0x0800_0000);
    bus.write32(0x0800_0000, 0xffff_ffff);
    bus.write16(0x0000_0000, 0xffff);
    assert_eq!(bus.read32(0x0800_0000), before);
    assert_eq!(bus.bios[0], fear_gba::bios::hle_image()[0]);
}

#[test]
fn a_halfword_write_to_sram_stores_the_addressed_byte() {
    let mut bus = bus();
    bus.write16(0x0e00_0001, 0xab12);
    assert_eq!(bus.read8(0x0e00_0001), 0xab);
    bus.write32(0x0e00_0002, 0x4433_2211);
    assert_eq!(bus.read8(0x0e00_0002), 0x33);
}
