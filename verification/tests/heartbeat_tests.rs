use speedwatch::heartbeat::Heartbeat;

#[test]
fn interval_zero_never_beats() {
    let mut h = Heartbeat::arm(0, 1_000);
    assert!(!h.is_active());
    assert_eq!(h.next_due(), None);
    for now in [0u64, 999, 1_000, 1_001, 10_000, 1_000_000_000, u64::MAX] {
        assert_eq!(h.poll(now), 0);
    }
    assert_eq!(h.next_due(), None);
}

#[test]
fn interval_hundred_beats_every_ten_seconds() {
    let mut h = Heartbeat::arm(100, 5_000);
    assert!(h.is_active());
    assert_eq!(h.next_due(), Some(15_000));
    assert_eq!(h.poll(5_000), 0);
    assert_eq!(h.poll(14_999), 0);
    assert_eq!(h.poll(15_000), 1);
    assert_eq!(h.next_due(), Some(25_000));
    assert_eq!(h.poll(15_001), 0);
    assert_eq!(h.poll(24_999), 0);
    assert_eq!(h.poll(25_000), 1);
    assert_eq!(h.poll(35_000), 1);
    assert_eq!(h.next_due(), Some(45_000));
}

#[test]
fn one_decisecond_is_a_hundred_milliseconds() {
    let mut h = Heartbeat::arm(1, 0);
    assert_eq!(h.next_due(), Some(100));
    assert_eq!(h.poll(99), 0);
    assert_eq!(h.poll(100), 1);
    let mut g = Heartbeat::arm(25, 0);
    assert_eq!(g.next_due(), Some(2_500));
    assert_eq!(g.poll(2_500), 1);
}

#[test]
fn late_poll_catches_up_on_every_beat_missed() {
    let mut h = Heartbeat::arm(100, 0);
    assert_eq!(h.poll(100_000), 10);
    assert_eq!(h.next_due(), Some(110_000));
    let mut g = Heartbeat::arm(100, 0);
    assert_eq!(g.poll(109_999), 10);
    assert_eq!(g.next_due(), Some(110_000));
}

#[test]
fn polls_in_between_do_not_change_the_total() {
    let mut once = Heartbeat::arm(7, 123);
    let total = once.poll(100_000);
    let mut often = Heartbeat::arm(7, 123);
    let mut sum = 0;
    for now in [200u64, 822, 823, 824, 5_000, 5_000, 77_777, 100_000] {
        sum += often.poll(now);
    }
    assert_eq!(sum, total);
    assert_eq!(total, (100_000 - 123) / 700);
    assert_eq!(often.next_due(), once.next_due());
}

#[test]
fn poll_before_arming_time_beats_nothing() {
    let mut h = Heartbeat::arm(10, 50_000);
    assert_eq!(h.poll(0), 0);
    assert_eq!(h.poll(49_999), 0);
    assert_eq!(h.next_due(), Some(51_000));
}

#[test]
fn stop_ends_the_beats_at_once_and_for_good() {
    let mut h = Heartbeat::arm(100, 0);
    assert_eq!(h.poll(10_000), 1);
    h.stop();
    assert!(!h.is_active());
    assert_eq!(h.next_due(), None);
    assert_eq!(h.poll(20_000), 0);
    assert_eq!(h.poll(u64::MAX), 0);
}

#[test]
fn schedule_at_the_end_of_time_stops_instead_of_wrapping() {
    let h = Heartbeat::arm(100, u64::MAX - 5);
    assert!(!h.is_active());
    let mut g = Heartbeat::arm(100, u64::MAX - 10_000);
    assert_eq!(g.next_due(), Some(u64::MAX));
    assert_eq!(g.poll(u64::MAX), 1);
    assert!(!g.is_active());
    assert_eq!(g.poll(u64::MAX), 0);
}

#[test]
fn longest_interval_fits() {
    let mut h = Heartbeat::arm(u32::MAX, 0);
    assert_eq!(h.next_due(), Some(429_496_729_500));
    assert_eq!(h.poll(429_496_729_499), 0);
    assert_eq!(h.poll(429_496_729_500), 1);
}
