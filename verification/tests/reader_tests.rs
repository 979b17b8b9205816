use speedwatch::codec::{encode, FrameError, Message, Ticket};
use speedwatch::connection::Camera;
use speedwatch::dispatch::Event;
use speedwatch::reader::{event_for, read_event};

#[test]
fn whole_frame_gives_its_event() {
    let bytes = encode(&Message::Plate { plate: "UN1X".to_string(), timestamp: 1000 }).unwrap();
    assert_eq!(
        read_event(4, &bytes, false),
        (Some(Event::Plate { conn: 4, plate: "UN1X".to_string(), timestamp: 1000 }), 10)
    );
    let bytes = encode(&Message::IAmCamera { road: 66, mile: 100, limit: 60 }).unwrap();
    assert_eq!(
        read_event(4, &bytes, true),
        (
            Some(Event::IAmCamera { conn: 4, camera: Camera { road: 66, mile: 100, limit: 60 } }),
            7
        )
    );
    let bytes = encode(&Message::IAmDispatcher { roads: vec![66] }).unwrap();
    assert_eq!(
        read_event(5, &bytes, false),
        (Some(Event::IAmDispatcher { conn: 5, roads: vec![66] }), 4)
    );
    let bytes = encode(&Message::WantHeartbeat { interval: 10 }).unwrap();
    assert_eq!(
        read_event(5, &bytes, false),
        (Some(Event::WantHeartbeat { conn: 5, interval: 10 }), 5)
    );
}

#[test]
fn beginning_of_a_frame_waits_for_the_rest() {
    let bytes = encode(&Message::Plate { plate: "UN1X".to_string(), timestamp: 1000 }).unwrap();
    for n in 0..bytes.len() {
        assert_eq!(read_event(1, &bytes[..n], false), (None, 0));
    }
}

#[test]
fn frames_are_taken_one_after_another() {
    let mut bytes = encode(&Message::IAmCamera { road: 1, mile: 2, limit: 3 }).unwrap();
    bytes.extend(encode(&Message::Plate { plate: "A".to_string(), timestamp: 9 }).unwrap());
    bytes.extend_from_slice(&[0x40, 0x00]);
    let (e1, n1) = read_event(1, &bytes, false);
    assert_eq!(
        e1,
        Some(Event::IAmCamera { conn: 1, camera: Camera { road: 1, mile: 2, limit: 3 } })
    );
    let (e2, n2) = read_event(1, &bytes[n1..], false);
    assert_eq!(e2, Some(Event::Plate { conn: 1, plate: "A".to_string(), timestamp: 9 }));
    assert_eq!(read_event(1, &bytes[n1 + n2..], false), (None, 0));
    assert_eq!(
        read_event(1, &bytes[n1 + n2..], true),
        (Some(Event::BadFrame { conn: 1, error: FrameError::Truncated }), 2)
    );
}

#[test]
fn end_of_stream_without_bytes_is_the_disconnect() {
    assert_eq!(read_event(8, &[], true), (Some(Event::Disconnected { conn: 8 }), 0));
    assert_eq!(read_event(8, &[], false), (None, 0));
}

#[test]
fn unknown_opcode_uses_up_the_bytes() {
    assert_eq!(
        read_event(2, &[0x99, 1, 2, 3], false),
        (Some(Event::BadFrame { conn: 2, error: FrameError::UnknownOpcode(0x99) }), 4)
    );
}

#[test]
fn invalid_text_is_a_bad_frame() {
    assert_eq!(
        read_event(2, &[0x20, 0x01, 0xff, 0, 0, 0, 1], false),
        (Some(Event::BadFrame { conn: 2, error: FrameError::InvalidText }), 7)
    );
}

#[test]
fn frames_of_the_server_are_of_no_known_kind_from_a_client() {
    let t = Ticket {
        plate: "A".to_string(),
        road: 1,
        mile1: 1,
        timestamp1: 1,
        mile2: 2,
        timestamp2: 2,
        speed: 100,
    };
    assert_eq!(
        event_for(3, Message::Error { message: "x".to_string() }),
        Event::BadFrame { conn: 3, error: FrameError::UnknownOpcode(0x10) }
    );
    assert_eq!(
        event_for(3, Message::Ticket { ticket: t }),
        Event::BadFrame { conn: 3, error: FrameError::UnknownOpcode(0x21) }
    );
    assert_eq!(
        event_for(3, Message::Heartbeat),
        Event::BadFrame { conn: 3, error: FrameError::UnknownOpcode(0x41) }
    );
    assert_eq!(
        read_event(3, &[0x41], false),
        (Some(Event::BadFrame { conn: 3, error: FrameError::UnknownOpcode(0x41) }), 1)
    );
}
