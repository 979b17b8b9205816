use speedwatch::codec::{Message, Ticket};
use speedwatch::codec::FrameError;
use speedwatch::connection::Camera;
use speedwatch::dispatch::{Core, Event, Output};

fn camera(core: &mut Core, conn: u64, road: u16, mile: u16, limit: u16) {
    assert_eq!(core.handle(Event::Connected { conn }), vec![]);
    assert_eq!(
        core.handle(Event::IAmCamera { conn, camera: Camera { road, mile, limit } }),
        vec![]
    );
}

fn dispatcher(core: &mut Core, conn: u64, roads: Vec<u16>) -> Vec<Output> {
    assert_eq!(core.handle(Event::Connected { conn }), vec![]);
    core.handle(Event::IAmDispatcher { conn, roads })
}

fn plate(core: &mut Core, conn: u64, plate: &str, timestamp: u32) -> Vec<Output> {
    core.handle(Event::Plate { conn, plate: plate.to_string(), timestamp })
}

fn ticket(plate: &str, road: u16, m1: u16, t1: u32, m2: u16, t2: u32, speed: u16) -> Ticket {
    Ticket {
        plate: plate.to_string(),
        road,
        mile1: m1,
        timestamp1: t1,
        mile2: m2,
        timestamp2: t2,
        speed,
    }
}

fn sent(conn: u64, t: Ticket) -> Output {
    Output::Send { conn, message: Message::Ticket { ticket: t } }
}

fn rejected(conn: u64, text: &str) -> Vec<Output> {
    vec![
        Output::Send { conn, message: Message::Error { message: text.to_string() } },
        Output::Close { conn },
    ]
}

#[test]
fn new_core_is_empty() {
    let core = Core::new();
    assert_eq!(core.pending(), vec![]);
    assert_eq!(core.issued(), vec![]);
    assert_eq!(core.sightings_len(), 0);
    assert_eq!(core.limit(5), None);
    assert!(!core.is_open(1));
    assert_eq!(core.dispatcher(5), None);
}

#[test]
fn sixty_in_a_sixty_zone_is_no_ticket() {
    let mut core = Core::new();
    camera(&mut core, 1, 5, 0, 60);
    camera(&mut core, 2, 5, 1, 60);
    assert_eq!(plate(&mut core, 1, "ABC", 0), vec![]);
    assert_eq!(plate(&mut core, 2, "ABC", 60), vec![]);
    assert_eq!(core.issued(), vec![]);
    assert_eq!(core.pending(), vec![]);
    assert_eq!(core.sightings_len(), 2);
}

#[test]
fn seventy_two_in_a_sixty_zone_is_queued_until_a_dispatcher_comes() {
    let mut core = Core::new();
    camera(&mut core, 1, 5, 0, 60);
    camera(&mut core, 2, 5, 1, 60);
    assert_eq!(plate(&mut core, 1, "ABC", 0), vec![]);
    assert_eq!(plate(&mut core, 2, "ABC", 50), vec![]);
    let expected = ticket("ABC", 5, 0, 0, 1, 50, 7200);
    assert_eq!(core.pending(), vec![expected.clone()]);
    assert_eq!(core.issued(), vec![expected.clone()]);
    assert_eq!(dispatcher(&mut core, 3, vec![5]), vec![sent(3, expected.clone())]);
    assert_eq!(core.pending(), vec![]);
    assert_eq!(core.issued(), vec![expected]);
}

#[test]
fn ticket_goes_straight_to_a_dispatcher_that_is_there() {
    let mut core = Core::new();
    assert_eq!(dispatcher(&mut core, 9, vec![5]), vec![]);
    camera(&mut core, 1, 5, 0, 60);
    camera(&mut core, 2, 5, 1, 60);
    plate(&mut core, 1, "ABC", 0);
    assert_eq!(
        plate(&mut core, 2, "ABC", 50),
        vec![sent(9, ticket("ABC", 5, 0, 0, 1, 50, 7200))]
    );
    assert_eq!(core.pending(), vec![]);
}

#[test]
fn earlier_sighting_stands_first_whatever_the_order_of_arrival() {
    let mut core = Core::new();
    dispatcher(&mut core, 9, vec![5]);
    camera(&mut core, 1, 5, 0, 60);
    camera(&mut core, 2, 5, 1, 60);
    assert_eq!(plate(&mut core, 2, "ABC", 50), vec![]);
    assert_eq!(
        plate(&mut core, 1, "ABC", 0),
        vec![sent(9, ticket("ABC", 5, 0, 0, 1, 50, 7200))]
    );
}

#[test]
fn driving_down_the_mileposts_is_speeding_too() {
    let mut core = Core::new();
    dispatcher(&mut core, 9, vec![5]);
    camera(&mut core, 1, 5, 10, 60);
    camera(&mut core, 2, 5, 8, 60);
    plate(&mut core, 1, "ABC", 1000);
    assert_eq!(
        plate(&mut core, 2, "ABC", 1045),
        vec![sent(9, ticket("ABC", 5, 10, 1000, 8, 1045, 16000))]
    );
}

#[test]
fn other_plates_and_other_roads_do_not_pair() {
    let mut core = Core::new();
    dispatcher(&mut core, 9, vec![5, 6]);
    camera(&mut core, 1, 5, 0, 60);
    camera(&mut core, 2, 5, 1, 60);
    camera(&mut core, 3, 6, 1, 60);
    plate(&mut core, 1, "ABC", 0);
    assert_eq!(plate(&mut core, 2, "XYZ", 10), vec![]);
    assert_eq!(plate(&mut core, 3, "ABC", 10), vec![]);
    assert_eq!(core.issued(), vec![]);
}

#[test]
fn same_timestamp_makes_no_pair() {
    let mut core = Core::new();
    dispatcher(&mut core, 9, vec![5]);
    camera(&mut core, 1, 5, 0, 60);
    camera(&mut core, 2, 5, 100, 60);
    plate(&mut core, 1, "ABC", 77);
    assert_eq!(plate(&mut core, 2, "ABC", 77), vec![]);
}

#[test]
fn second_ticket_on_the_same_day_is_dropped() {
    let mut core = Core::new();
    dispatcher(&mut core, 9, vec![5]);
    camera(&mut core, 1, 5, 0, 60);
    camera(&mut core, 2, 5, 10, 60);
    camera(&mut core, 3, 5, 20, 60);
    plate(&mut core, 1, "ABC", 0);
    assert_eq!(
        plate(&mut core, 2, "ABC", 300),
        vec![sent(9, ticket("ABC", 5, 0, 0, 10, 300, 12000))]
    );
    // speeding against both earlier sightings, but day 0 is taken
    assert_eq!(plate(&mut core, 3, "ABC", 600), vec![]);
    assert_eq!(core.issued().len(), 1);
    assert_eq!(core.sightings_len(), 3);
}

#[test]
fn next_day_brings_a_new_ticket() {
    let mut core = Core::new();
    dispatcher(&mut core, 9, vec![5]);
    camera(&mut core, 1, 5, 0, 60);
    camera(&mut core, 2, 5, 10, 60);
    plate(&mut core, 1, "ABC", 0);
    plate(&mut core, 2, "ABC", 300);
    plate(&mut core, 1, "ABC", 86400);
    let out = plate(&mut core, 2, "ABC", 86700);
    assert_eq!(out, vec![sent(9, ticket("ABC", 5, 0, 86400, 10, 86700, 12000))]);
    assert_eq!(core.issued().len(), 2);
}

#[test]
fn ticket_over_midnight_takes_both_days() {
    let mut core = Core::new();
    dispatcher(&mut core, 9, vec![5]);
    camera(&mut core, 1, 5, 0, 60);
    camera(&mut core, 2, 5, 10, 60);
    // day 0 into day 1
    plate(&mut core, 1, "ABC", 86300);
    assert_eq!(
        plate(&mut core, 2, "ABC", 86500),
        vec![sent(9, ticket("ABC", 5, 0, 86300, 10, 86500, 18000))]
    );
    // all within day 1: blocked
    plate(&mut core, 1, "ABC", 90000);
    assert_eq!(plate(&mut core, 2, "ABC", 90200), vec![]);
    // all within day 0: blocked as well
    plate(&mut core, 1, "ABC", 1000);
    assert_eq!(plate(&mut core, 2, "ABC", 1200), vec![]);
    assert_eq!(core.issued().len(), 1);
}

#[test]
fn slow_pairs_bring_no_ticket() {
    let mut core = Core::new();
    dispatcher(&mut core, 9, vec![5]);
    camera(&mut core, 1, 5, 0, 60);
    camera(&mut core, 2, 5, 1000, 60);
    camera(&mut core, 3, 5, 500, 60);
    // 1000 miles in ten days, then 500 miles in five: 4.17 mph each
    assert_eq!(plate(&mut core, 1, "ABC", 0), vec![]);
    assert_eq!(plate(&mut core, 2, "ABC", 10 * 86400), vec![]);
    assert_eq!(plate(&mut core, 3, "ABC", 5 * 86400), vec![]);
    assert_eq!(core.issued(), vec![]);
    assert_eq!(core.sightings_len(), 3);
}

#[test]
fn one_sighting_brings_at_most_one_ticket() {
    let mut core = Core::new();
    dispatcher(&mut core, 9, vec![5]);
    // limit 0: anything above half a mile per hour is speeding
    camera(&mut core, 1, 5, 0, 0);
    camera(&mut core, 3, 5, 50, 0);
    // twice at the same milepost, two days apart: no pair
    assert_eq!(plate(&mut core, 1, "ABC", 10), vec![]);
    assert_eq!(plate(&mut core, 1, "ABC", 2 * 86400 + 10), vec![]);
    // in between and 50 miles off: speeding against both.  The pair with the
    // sighting that arrived first gets the ticket, for days 0 and 1; the
    // other pair would take days 1 and 2 and is dropped for day 1.
    assert_eq!(
        plate(&mut core, 3, "ABC", 86400 + 10),
        vec![sent(9, ticket("ABC", 5, 0, 10, 50, 86410, 208))]
    );
    assert_eq!(core.issued().len(), 1);
    assert_eq!(core.sightings_len(), 3);
}

#[test]
fn pending_tickets_are_delivered_oldest_first() {
    let mut core = Core::new();
    camera(&mut core, 1, 5, 0, 60);
    camera(&mut core, 2, 5, 10, 60);
    camera(&mut core, 3, 6, 0, 60);
    camera(&mut core, 4, 6, 10, 60);
    plate(&mut core, 1, "AAA", 0);
    plate(&mut core, 2, "AAA", 300);
    plate(&mut core, 3, "BBB", 0);
    plate(&mut core, 4, "BBB", 300);
    plate(&mut core, 1, "CCC", 0);
    plate(&mut core, 2, "CCC", 200);
    let a = ticket("AAA", 5, 0, 0, 10, 300, 12000);
    let b = ticket("BBB", 6, 0, 0, 10, 300, 12000);
    let c = ticket("CCC", 5, 0, 0, 10, 200, 18000);
    assert_eq!(core.pending(), vec![a.clone(), b.clone(), c.clone()]);
    assert_eq!(
        dispatcher(&mut core, 7, vec![5]),
        vec![sent(7, a), sent(7, c)]
    );
    assert_eq!(core.pending(), vec![b.clone()]);
    // a second dispatcher for road 5 gets nothing: each ticket went out once
    assert_eq!(dispatcher(&mut core, 8, vec![5]), vec![]);
    assert_eq!(dispatcher(&mut core, 6, vec![6, 5]), vec![sent(6, b)]);
    assert_eq!(core.pending(), vec![]);
}

#[test]
fn dispatcher_with_the_lowest_identity_is_chosen() {
    let mut core = Core::new();
    dispatcher(&mut core, 30, vec![5]);
    dispatcher(&mut core, 10, vec![4, 5]);
    dispatcher(&mut core, 20, vec![5]);
    dispatcher(&mut core, 2, vec![7]);
    assert_eq!(core.dispatcher(5), Some(10));
    assert_eq!(core.dispatcher(7), Some(2));
    assert_eq!(core.dispatcher(8), None);
    camera(&mut core, 1, 5, 0, 60);
    camera(&mut core, 3, 5, 1, 60);
    plate(&mut core, 1, "ABC", 0);
    assert_eq!(
        plate(&mut core, 3, "ABC", 50),
        vec![sent(10, ticket("ABC", 5, 0, 0, 1, 50, 7200))]
    );
    core.handle(Event::Disconnected { conn: 10 });
    assert_eq!(core.dispatcher(5), Some(20));
}

#[test]
fn tickets_wait_again_once_the_dispatcher_is_gone() {
    let mut core = Core::new();
    dispatcher(&mut core, 9, vec![5]);
    assert_eq!(core.handle(Event::Disconnected { conn: 9 }), vec![]);
    camera(&mut core, 1, 5, 0, 60);
    camera(&mut core, 2, 5, 1, 60);
    plate(&mut core, 1, "ABC", 0);
    assert_eq!(plate(&mut core, 2, "ABC", 50), vec![]);
    assert_eq!(core.pending().len(), 1);
}

#[test]
fn sightings_outlive_their_camera() {
    let mut core = Core::new();
    dispatcher(&mut core, 9, vec![5]);
    camera(&mut core, 1, 5, 0, 60);
    plate(&mut core, 1, "ABC", 0);
    assert_eq!(core.handle(Event::Disconnected { conn: 1 }), vec![]);
    assert!(!core.is_open(1));
    assert_eq!(core.sightings_len(), 1);
    camera(&mut core, 2, 5, 1, 60);
    assert_eq!(
        plate(&mut core, 2, "ABC", 50),
        vec![sent(9, ticket("ABC", 5, 0, 0, 1, 50, 7200))]
    );
}

#[test]
fn first_camera_sets_the_limit_of_its_road() {
    let mut core = Core::new();
    dispatcher(&mut core, 9, vec![5]);
    camera(&mut core, 1, 5, 0, 60);
    assert_eq!(core.limit(5), Some(60));
    camera(&mut core, 2, 5, 1, 100);
    assert_eq!(core.limit(5), Some(60));
    assert_eq!(core.limit(6), None);
    plate(&mut core, 1, "ABC", 0);
    // 72 mph: free under the second camera's own figure, caught by the road's
    assert_eq!(
        plate(&mut core, 2, "ABC", 50),
        vec![sent(9, ticket("ABC", 5, 0, 0, 1, 50, 7200))]
    );
}

#[test]
fn second_i_am_camera_is_answered_with_error_and_close() {
    let mut core = Core::new();
    camera(&mut core, 1, 5, 0, 60);
    assert_eq!(
        core.handle(Event::IAmCamera { conn: 1, camera: Camera { road: 5, mile: 0, limit: 60 } }),
        rejected(1, "role already set")
    );
    assert!(!core.is_open(1));
}

#[test]
fn camera_cannot_become_dispatcher_nor_dispatcher_camera() {
    let mut core = Core::new();
    camera(&mut core, 1, 5, 0, 60);
    assert_eq!(
        core.handle(Event::IAmDispatcher { conn: 1, roads: vec![5] }),
        rejected(1, "role already set")
    );
    dispatcher(&mut core, 2, vec![5]);
    assert_eq!(
        core.handle(Event::IAmCamera { conn: 2, camera: Camera { road: 5, mile: 0, limit: 60 } }),
        rejected(2, "role already set")
    );
    dispatcher(&mut core, 3, vec![5]);
    assert_eq!(
        core.handle(Event::IAmDispatcher { conn: 3, roads: vec![6] }),
        rejected(3, "role already set")
    );
    assert_eq!(core.dispatcher(5), None);
}

#[test]
fn plate_from_a_connection_that_is_no_camera_is_answered_with_error_and_close() {
    let mut core = Core::new();
    core.handle(Event::Connected { conn: 1 });
    assert_eq!(plate(&mut core, 1, "ABC", 0), rejected(1, "not a camera"));
    dispatcher(&mut core, 2, vec![5]);
    assert_eq!(plate(&mut core, 2, "ABC", 0), rejected(2, "not a camera"));
    assert_eq!(core.sightings_len(), 0);
    assert!(!core.is_open(1));
    assert!(!core.is_open(2));
}

#[test]
fn second_want_heartbeat_is_answered_with_error_and_close() {
    let mut core = Core::new();
    core.handle(Event::Connected { conn: 1 });
    assert_eq!(
        core.handle(Event::WantHeartbeat { conn: 1, interval: 25 }),
        vec![Output::StartHeartbeat { conn: 1, interval: 25 }]
    );
    assert_eq!(
        core.handle(Event::WantHeartbeat { conn: 1, interval: 25 }),
        rejected(1, "heartbeat already set")
    );
    core.handle(Event::Connected { conn: 2 });
    assert_eq!(core.handle(Event::WantHeartbeat { conn: 2, interval: 0 }), vec![]);
    assert_eq!(
        core.handle(Event::WantHeartbeat { conn: 2, interval: 0 }),
        rejected(2, "heartbeat already set")
    );
}

#[test]
fn heartbeat_request_does_not_touch_the_role() {
    let mut core = Core::new();
    dispatcher(&mut core, 9, vec![5]);
    core.handle(Event::Connected { conn: 1 });
    core.handle(Event::WantHeartbeat { conn: 1, interval: 10 });
    assert_eq!(
        core.handle(Event::IAmCamera { conn: 1, camera: Camera { road: 5, mile: 0, limit: 60 } }),
        vec![]
    );
    camera(&mut core, 2, 5, 1, 60);
    assert_eq!(
        core.handle(Event::WantHeartbeat { conn: 2, interval: 10 }),
        vec![Output::StartHeartbeat { conn: 2, interval: 10 }]
    );
    plate(&mut core, 1, "ABC", 0);
    assert_eq!(plate(&mut core, 2, "ABC", 50).len(), 1);
}

#[test]
fn nothing_is_done_for_a_connection_that_is_closed() {
    let mut core = Core::new();
    assert_eq!(plate(&mut core, 1, "ABC", 0), vec![]);
    assert_eq!(
        core.handle(Event::IAmCamera { conn: 1, camera: Camera { road: 5, mile: 0, limit: 60 } }),
        vec![]
    );
    assert_eq!(core.limit(5), None);
    assert_eq!(core.handle(Event::IAmDispatcher { conn: 1, roads: vec![5] }), vec![]);
    assert_eq!(core.handle(Event::WantHeartbeat { conn: 1, interval: 5 }), vec![]);
    assert_eq!(core.handle(Event::Disconnected { conn: 1 }), vec![]);
    assert_eq!(
        core.handle(Event::BadFrame { conn: 1, error: FrameError::UnknownOpcode(3) }),
        vec![]
    );
    camera(&mut core, 2, 5, 0, 60);
    core.handle(Event::IAmCamera { conn: 2, camera: Camera { road: 5, mile: 0, limit: 60 } });
    assert_eq!(plate(&mut core, 2, "ABC", 0), vec![]);
    assert_eq!(core.sightings_len(), 0);
}

#[test]
fn unknown_opcode_is_answered_and_unreadable_bytes_are_not() {
    let mut core = Core::new();
    core.handle(Event::Connected { conn: 1 });
    assert_eq!(
        core.handle(Event::BadFrame { conn: 1, error: FrameError::UnknownOpcode(0x99) }),
        rejected(1, "unknown message type")
    );
    core.handle(Event::Connected { conn: 2 });
    assert_eq!(
        core.handle(Event::BadFrame { conn: 2, error: FrameError::Truncated }),
        vec![Output::Close { conn: 2 }]
    );
    core.handle(Event::Connected { conn: 3 });
    assert_eq!(
        core.handle(Event::BadFrame { conn: 3, error: FrameError::InvalidText }),
        vec![Output::Close { conn: 3 }]
    );
    assert!(!core.is_open(1) && !core.is_open(2) && !core.is_open(3));
}

#[test]
fn plate_too_long_for_a_ticket_is_refused() {
    let mut core = Core::new();
    camera(&mut core, 1, 5, 0, 60);
    assert_eq!(plate(&mut core, 1, &"A".repeat(255), 0), vec![]);
    assert_eq!(plate(&mut core, 1, &"A".repeat(256), 0), rejected(1, "plate too long"));
    assert_eq!(core.sightings_len(), 1);
}

#[test]
fn connecting_twice_keeps_the_record() {
    let mut core = Core::new();
    camera(&mut core, 1, 5, 0, 60);
    assert_eq!(core.handle(Event::Connected { conn: 1 }), vec![]);
    assert_eq!(
        core.handle(Event::IAmCamera { conn: 1, camera: Camera { road: 5, mile: 0, limit: 60 } }),
        rejected(1, "role already set")
    );
}

#[test]
fn every_frame_to_send_can_be_encoded() {
    let mut core = Core::new();
    camera(&mut core, 1, 5, 0, 60);
    camera(&mut core, 2, 5, 1, 60);
    plate(&mut core, 1, "ABC", 0);
    plate(&mut core, 2, "ABC", 50);
    let mut all = dispatcher(&mut core, 3, vec![5]);
    all.extend(plate(&mut core, 3, "ABC", 1));
    core.handle(Event::Connected { conn: 4 });
    all.extend(core.handle(Event::BadFrame { conn: 4, error: FrameError::UnknownOpcode(1) }));
    assert_eq!(all.len(), 5);
    for o in all {
        if let Output::Send { message, .. } = o {
            assert!(speedwatch::codec::encode(&message).is_some());
        }
    }
}
