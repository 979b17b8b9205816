use speedwatch::ledger::{day, is_blocked};
use speedwatch::codec::Ticket;
use speedwatch::speed::{average_speed, exceeds_limit, miles_between, speed_for_ticket};

fn ticket(plate: &str, ts1: u32, ts2: u32) -> Ticket {
    Ticket {
        plate: plate.to_string(),
        road: 1,
        mile1: 0,
        timestamp1: ts1,
        mile2: 10,
        timestamp2: ts2,
        speed: 10000,
    }
}

#[test]
fn distance_is_symmetric() {
    assert_eq!(miles_between(8, 9), 1);
    assert_eq!(miles_between(9, 8), 1);
    assert_eq!(miles_between(0, 65535), 65535);
    assert_eq!(miles_between(7, 7), 0);
}

#[test]
fn one_mile_in_a_minute_is_sixty() {
    assert_eq!(average_speed(1, 60), 6000);
}

#[test]
fn one_mile_in_fifty_seconds_is_seventy_two() {
    assert_eq!(average_speed(1, 50), 7200);
}

#[test]
fn speed_is_rounded_to_the_nearest_hundredth() {
    // 360000 / 7 = 51428.57..
    assert_eq!(average_speed(1, 7), 51429);
    // 360000 / 11 = 32727.27..
    assert_eq!(average_speed(1, 11), 32727);
    // 360000 / 128 = 2812.5: halves go up
    assert_eq!(average_speed(1, 128), 2813);
    assert_eq!(average_speed(0, 5), 0);
}

#[test]
fn speed_of_the_longest_road_in_a_second_does_not_overflow() {
    assert_eq!(average_speed(65535, 1), 65535 * 360000);
    assert_eq!(average_speed(65535, 4294967295), 5);
}

#[test]
fn ticket_speed_is_held_at_the_top_of_the_field() {
    assert_eq!(speed_for_ticket(1, 50), 7200);
    assert_eq!(speed_for_ticket(2, 1), 65535);
    // 655.35 mph exactly, and one step beyond
    assert_eq!(speed_for_ticket(13107, 72000), 65535);
    assert_eq!(speed_for_ticket(13108, 72000), 65535);
    assert_eq!(speed_for_ticket(13106, 72000), 65530);
}

#[test]
fn limit_is_broken_only_beyond_half_a_mile_per_hour() {
    // 60.00 mph against 60
    assert!(!exceeds_limit(1, 60, 60));
    // 72.00 mph against 60
    assert!(exceeds_limit(1, 50, 60));
    // 60.5 mph exactly: 121 miles in two hours
    assert!(!exceeds_limit(121, 7200, 60));
    // a second faster
    assert!(exceeds_limit(121, 7199, 60));
    // 60.4 mph rounds to 6040 and stays free
    assert!(!exceeds_limit(604, 36000, 60));
    assert!(!exceeds_limit(0, 1, 0));
    assert!(exceeds_limit(65535, 1, 65535));
    assert!(!exceeds_limit(1, 4294967295, 65535));
}

#[test]
fn day_is_the_timestamp_over_86400() {
    assert_eq!(day(0), 0);
    assert_eq!(day(86399), 0);
    assert_eq!(day(86400), 1);
    assert_eq!(day(4294967295), 49710);
}

#[test]
fn empty_ledger_blocks_nothing() {
    assert!(!is_blocked(&vec![], &ticket("A", 0, 10)));
}

#[test]
fn ticket_on_a_taken_day_is_blocked() {
    let issued = vec![ticket("A", 100, 200)];
    assert!(is_blocked(&issued, &ticket("A", 300, 400)));
    assert!(is_blocked(&issued, &ticket("A", 86399, 86401)));
    assert!(!is_blocked(&issued, &ticket("A", 86400, 86500)));
    assert!(!is_blocked(&issued, &ticket("B", 300, 400)));
}

#[test]
fn ticket_over_several_days_takes_each_of_them() {
    let issued = vec![ticket("A", 86400, 3 * 86400 + 5)];
    assert!(is_blocked(&issued, &ticket("A", 86400 + 7, 86400 + 9)));
    assert!(is_blocked(&issued, &ticket("A", 2 * 86400, 2 * 86400 + 9)));
    assert!(is_blocked(&issued, &ticket("A", 3 * 86400 + 100, 3 * 86400 + 200)));
    assert!(is_blocked(&issued, &ticket("A", 10, 5 * 86400)));
    assert!(!is_blocked(&issued, &ticket("A", 10, 20)));
    assert!(!is_blocked(&issued, &ticket("A", 4 * 86400, 4 * 86400 + 1)));
}
