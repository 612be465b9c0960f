//! Sound register access from the bus side.

use fear_gba::apu::Apu;

#[test]
fn odd_sound_register_addresses_read_zero_and_ignore_writes() {
    let mut apu = Apu::new();
    apu.write_register(0x80, 0x1234);
    apu.write_register(0x81, 0xffff);
    assert_eq!(apu.read_register(0x80), 0x1234);
    assert_eq!(apu.read_register(0x81), 0);
    apu.write_register(0x91, 0xbeef);
    assert_eq!(apu.read_register(0x91), 0xbeef);
}
