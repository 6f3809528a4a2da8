use eager_alarm_edge::mute::{MonotonicClock, MuteStatus, MAX_SPAN_NANOS};
use eager_alarm_edge::ringer::{LogRinger, RingTurn};

#[test]
fn a_new_status_mutes_nothing() {
    let mute = MuteStatus::default();
    assert!(!mute.is_muted());
    assert_eq!(mute.until(), None);
    assert!(!mute.is_muted_at(0));
}

#[test]
fn a_mute_lasts_until_its_end() {
    let mut mute = MuteStatus::new(MonotonicClock::new());
    mute.set_muted_until(1_000);
    assert!(mute.is_muted_at(0));
    assert!(mute.is_muted_at(999));
    assert!(!mute.is_muted_at(1_000));
    mute.set_muted_until(10);
    assert!(!mute.is_muted_at(10));
}

#[test]
fn the_mute_goes_by_the_clock() {
    let mut mute = MuteStatus::new(MonotonicClock::new());
    let reading = mute.clock().read();
    assert!(reading < 10_000_000_000);
    mute.set_muted_until(reading + 3_600_000_000_000);
    assert!(mute.is_muted());
    mute.set_muted_until(0);
    assert!(!mute.is_muted());
    mute.set_muted_until(MAX_SPAN_NANOS + 1);
    assert!(mute.is_muted());
    assert!(mute.clock().read() >= reading);
}

#[test]
fn the_log_ringer_is_silent_while_muted() {
    let mut mute = MuteStatus::default();
    assert_eq!(LogRinger.ring(&mute), RingTurn { announce: true, wait_seconds: 1 });
    mute.set_muted_until(5_000);
    assert_eq!(LogRinger.turn_at(&mute, 4_999), RingTurn { announce: false, wait_seconds: 1 });
    assert_eq!(LogRinger.turn_at(&mute, 5_000), RingTurn { announce: true, wait_seconds: 1 });
    mute.set_muted_until(MAX_SPAN_NANOS + 1);
    assert_eq!(LogRinger.ring(&mute), RingTurn { announce: false, wait_seconds: 1 });
}
