//! Sprite ordering and the line counter interrupt, seen through the bus.

use fear_gba::{Bus, Gba};

fn bus() -> Bus {
    Gba::new(vec![0; 0x200], None).bus
}

/// Objects on with one dimensional mapping, red and green in the object
/// palette, a 256 colour tile of red at block 0 and one of green at block 2,
/// and every sprite but the first two switched off.
fn two_sprites(first_priority: u16, second_priority: u16) -> Bus {
    let mut bus = bus();
    bus.write16(0x0400_0000, 0x1040);
    bus.write16(0x0500_0202, 0x001f);
    bus.write16(0x0500_0204, 0x03e0);
    bus.write16(0x0601_0000, 0x0001);
    bus.write16(0x0601_0040, 0x0002);
    for sprite in 2..128u32 {
        bus.write16(0x0700_0000 + sprite * 8, 0x0200);
    }
    bus.write16(0x0700_0000, 0x2000);
    bus.write16(0x0700_0002, 0x0000);
    bus.write16(0x0700_0004, first_priority << 10);
    bus.write16(0x0700_0008, 0x2000);
    bus.write16(0x0700_000a, 0x0000);
    bus.write16(0x0700_000c, 2 | (second_priority << 10));
    bus
}

#[test]
fn a_lower_priority_value_wins_between_sprites() {
    let mut bus = two_sprites(1, 0);
    bus.run_cycles(1232);
    assert_eq!(bus.ppu.framebuffer[0], 0x0000_ff00, "the second sprite, priority 0");
}

#[test]
fn between_equal_priorities_the_lower_sprite_number_wins() {
    let mut bus = two_sprites(2, 2);
    bus.run_cycles(1232);
    assert_eq!(bus.ppu.framebuffer[0], 0x00ff_0000, "the first sprite");
}

#[test]
fn a_transparent_texel_lets_the_next_sprite_through() {
    let mut bus = two_sprites(0, 3);
    // The red tile's second pixel is transparent, the green one's is set.
    bus.write16(0x0601_0040, 0x0202);
    bus.run_cycles(1232);
    assert_eq!(bus.ppu.framebuffer[0], 0x00ff_0000);
    assert_eq!(bus.ppu.framebuffer[1], 0x0000_ff00);
    assert_eq!(bus.ppu.framebuffer[2], 0, "nothing at the third pixel: the backdrop");
}

#[test]
fn a_disabled_sprite_draws_nothing() {
    let mut bus = two_sprites(0, 0);
    bus.write16(0x0700_0000, 0x0200);
    bus.write16(0x0700_0008, 0x0200);
    bus.run_cycles(1232);
    assert_eq!(bus.ppu.framebuffer[0], 0);
}

#[test]
fn a_line_match_raises_its_interrupt() {
    let mut bus = bus();
    bus.write16(0x0400_0004, 0x0520); // compare with line 5, interrupt on a match
    bus.run_cycles(1232 * 4);
    assert_eq!(bus.read16(0x0400_0006), 4);
    assert_eq!(bus.read16(0x0400_0004) & 4, 0, "no match on line 4");
    assert_eq!(bus.read16(0x0400_0202) & 4, 0);
    bus.run_cycles(1232);
    assert_eq!(bus.read16(0x0400_0006), 5);
    assert_ne!(bus.read16(0x0400_0004) & 4, 0, "the match flag is up");
    assert_ne!(bus.read16(0x0400_0202) & 4, 0, "and the interrupt is requested");
    bus.run_cycles(1232);
    assert_eq!(bus.read16(0x0400_0004) & 4, 0, "it drops on the next line");
}

#[test]
fn vblank_raises_its_interrupt_once_a_frame() {
    let mut bus = bus();
    bus.write16(0x0400_0004, 0x0008);
    bus.run_cycles(1232 * 160 - 1);
    assert_eq!(bus.read16(0x0400_0202) & 1, 0);
    bus.run_cycles(1);
    assert_ne!(bus.read16(0x0400_0202) & 1, 0);
}
