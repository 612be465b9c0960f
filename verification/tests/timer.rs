//! The timers' overflow prediction agrees with how they count.

use fear_gba::timer::Timers;

#[test]
fn first_timer_counts_cycles_even_with_the_cascade_bit() {
    let mut timers = Timers::default();
    timers.write_reload(0, 0xfff0);
    timers.write_control(0, 0x80 | 0x04);
    let soonest = timers.cycles_until_overflow();
    assert_eq!(soonest, 0x10);
    let mut early = Timers { channel: timers.channel };
    let (irq, fifo) = early.tick(soonest - 1);
    assert_eq!((irq, fifo), (0, 0));
    assert_eq!(early.channel[0].counter, 0xffff);
    let (_, fifo) = timers.tick(soonest);
    assert_eq!(fifo, 1);
    assert_eq!(timers.channel[0].counter, 0xfff0);
}

#[test]
fn a_cascaded_second_timer_has_no_clock_of_its_own() {
    let mut timers = Timers::default();
    timers.write_reload(1, 0xfffe);
    timers.write_control(1, 0x80 | 0x04);
    assert_eq!(timers.cycles_until_overflow(), u32::MAX);
    timers.write_reload(0, 0xff00);
    timers.write_control(0, 0x80 | 0x01);
    assert_eq!(timers.cycles_until_overflow(), 0x100 * 64);
}
