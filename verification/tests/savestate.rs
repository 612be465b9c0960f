//! Save states have to restore the machine exactly.

use fear_gba::state::StateError;
use fear_gba::Gba;

/// A small game: mode 3, a vertical blank interrupt, and a main loop that
/// halts until the next frame and then plots one more pixel.
fn rom() -> Vec<u8> {
    let main: [u32; 23] = [
        0xe3a0_0301, // mov r0, #0x04000000
        0xe3a0_1b01, // mov r1, #0x400
        0xe381_1003, // orr r1, r1, #3
        0xe1c0_10b0, // strh r1, [r0]          DISPCNT: mode 3, BG2
        0xe3a0_1008, // mov r1, #8
        0xe1c0_10b4, // strh r1, [r0, #4]      DISPSTAT: vblank interrupt
        0xe3a0_1001, // mov r1, #1
        0xe280_2c02, // add r2, r0, #0x200
        0xe1c2_10b0, // strh r1, [r2]          IE
        0xe582_1008, // str r1, [r2, #8]       IME
        0xe3a0_3403, // mov r3, #0x03000000
        0xe283_3c7f, // add r3, r3, #0x7f00
        0xe283_30fc, // add r3, r3, #0xfc
        0xe3a0_4302, // mov r4, #0x08000000
        0xe284_4c01, // add r4, r4, #0x100
        0xe583_4000, // str r4, [r3]           the interrupt handler
        0xe3a0_5000, // mov r5, #0
        0xe5c0_5301, // loop: strb r5, [r0, #0x301]   HALTCNT
        0xe286_6001, // add r6, r6, #1
        0xe3a0_7406, // mov r7, #0x06000000
        0xe087_7086, // add r7, r7, r6, lsl #1
        0xe1c7_60b0, // strh r6, [r7]
        0xeaff_fff9, // b loop
    ];
    let handler: [u32; 5] = [
        0xe3a0_0301, // mov r0, #0x04000000
        0xe280_0c02, // add r0, r0, #0x200
        0xe3a0_1001, // mov r1, #1
        0xe1c0_10b2, // strh r1, [r0, #2]      acknowledge IF
        0xe12f_ff1e, // bx lr
    ];
    let mut image = Vec::new();
    for word in main {
        image.extend_from_slice(&word.to_le_bytes());
    }
    image.resize(0x100, 0);
    for word in handler {
        image.extend_from_slice(&word.to_le_bytes());
    }
    image.resize(0x400, 0);
    image
}

#[test]
fn a_state_round_trips_to_the_same_future() {
    let image = rom();

    let mut gba = Gba::new(image.clone(), None);
    for _ in 0..400 {
        gba.run_frame();
        gba.bus.apu.buffer.clear();
    }
    let state = gba.save_state();

    // Keep running, then rewind and run the same frames again.
    for _ in 0..60 {
        gba.run_frame();
        gba.bus.apu.buffer.clear();
    }
    let expected: Vec<u32> = gba.framebuffer().to_vec();
    let expected_pc = gba.cpu.pc();

    gba.load_state(&state).expect("load");
    for _ in 0..60 {
        gba.run_frame();
        gba.bus.apu.buffer.clear();
    }
    assert_eq!(gba.cpu.pc(), expected_pc, "diverged from the captured run");
    assert_eq!(gba.framebuffer(), expected.as_slice());
}

#[test]
fn a_state_loads_into_a_fresh_machine() {
    let image = rom();

    let mut source = Gba::new(image.clone(), None);
    for _ in 0..400 {
        source.run_frame();
        source.bus.apu.buffer.clear();
    }
    let state = source.save_state();
    for _ in 0..30 {
        source.run_frame();
        source.bus.apu.buffer.clear();
    }

    let mut target = Gba::new(image, None);
    target.load_state(&state).expect("load");
    for _ in 0..30 {
        target.run_frame();
        target.bus.apu.buffer.clear();
    }
    assert_eq!(target.framebuffer(), source.framebuffer());
}

#[test]
fn the_test_game_draws_one_pixel_a_frame() {
    let mut gba = Gba::new(rom(), None);
    for _ in 0..3 {
        gba.run_frame();
    }
    assert_eq!(gba.cpu.r[6], 3, "one pass of the main loop per frame");
    assert_eq!(gba.bus.ppu.dispcnt, 0x403);
}

#[test]
fn a_state_from_another_game_is_rejected() {
    let mut first = Gba::new(vec![0x11; 0x400], None);
    let state = first.save_state();
    let mut second = Gba::new(vec![0x22; 0x400], None);
    assert!(second.load_state(&state).is_err());
    assert!(first.load_state(&state).is_ok());
}

#[test]
fn rubbish_is_rejected_rather_than_panicking() {
    let mut gba = Gba::new(vec![0; 0x400], None);
    assert!(gba.load_state(b"not a state at all").is_err());
    let truncated = gba.save_state()[..20].to_vec();
    assert!(gba.load_state(&truncated).is_err());
}

#[test]
fn refused_states_name_their_reason() {
    let mut gba = Gba::new(vec![0x33; 0x400], None);
    assert_eq!(gba.load_state(b"FGB"), Err(StateError::Truncated));
    assert_eq!(gba.load_state(b"not a state at all"), Err(StateError::NotAState));
    let mut other = gba.save_state();
    other[8] ^= 1;
    assert_eq!(gba.load_state(&other), Err(StateError::WrongGame));
    let mut newer = gba.save_state();
    newer[4] = newer[4].wrapping_add(1);
    assert_eq!(gba.load_state(&newer), Err(StateError::WrongVersion(2)));
}

#[test]
fn a_refused_state_leaves_the_machine_alone() {
    let mut gba = Gba::new(rom(), None);
    gba.run_frame();
    let pc = gba.cpu.pc();
    let counter = gba.cpu.r[6];
    let mut broken = gba.save_state();
    broken.truncate(100);
    assert!(gba.load_state(&broken).is_err());
    assert_eq!(gba.cpu.pc(), pc);
    assert_eq!(gba.cpu.r[6], counter);
}
