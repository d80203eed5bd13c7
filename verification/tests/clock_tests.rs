use rtrack::clock::ClockSync;
use rtrack::editor::ClockMode;

#[test]
fn external_clock_ticks_every_24_over_speed_pulses() {
    let mut c = ClockSync::new();
    assert_eq!(c.mode(), ClockMode::Internal);
    assert!(!c.clock_pulse(true, 6));
    c.toggle_mode();
    assert_eq!(c.mode(), ClockMode::ExternalMidi);
    let ticks: Vec<bool> = (0..8).map(|_| c.clock_pulse(true, 6)).collect();
    assert_eq!(ticks, vec![false, false, false, true, false, false, false, true]);
    assert!(!c.clock_pulse(false, 6));
    assert_eq!(c.count(), 0);
}

#[test]
fn fast_speeds_tick_on_every_pulse() {
    let mut c = ClockSync::new();
    c.toggle_mode();
    assert!(c.clock_pulse(true, 31));
    assert!(c.clock_pulse(true, 24));
    assert!(!c.clock_pulse(true, 12));
    assert!(c.clock_pulse(true, 12));
}

#[test]
fn transport_messages_follow_only_the_external_clock() {
    let mut c = ClockSync::new();
    assert!(!c.start());
    assert!(!c.stop());
    c.toggle_mode();
    c.clock_pulse(true, 1);
    assert_eq!(c.count(), 1);
    assert!(c.resume());
    assert_eq!(c.count(), 0);
    assert!(c.start());
    assert!(c.stop());
    c.toggle_mode();
    assert_eq!(c.mode(), ClockMode::Internal);
}
