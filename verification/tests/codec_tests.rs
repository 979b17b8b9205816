use speedwatch::codec::{decode, encode, FrameError, Message, Ticket};

fn ticket(plate: &str) -> Ticket {
    Ticket {
        plate: plate.to_string(),
        road: 66,
        mile1: 100,
        timestamp1: 123456,
        mile2: 110,
        timestamp2: 123816,
        speed: 10000,
    }
}

#[test]
fn encodes_error_frame() {
    let m = Message::Error { message: "bad".to_string() };
    assert_eq!(encode(&m), Some(vec![0x10, 0x03, b'b', b'a', b'd']));
}

#[test]
fn encodes_plate_frame() {
    let m = Message::Plate { plate: "UN1X".to_string(), timestamp: 1000 };
    assert_eq!(
        encode(&m),
        Some(vec![0x20, 0x04, 0x55, 0x4e, 0x31, 0x58, 0x00, 0x00, 0x03, 0xe8])
    );
}

#[test]
fn encodes_ticket_frame() {
    let m = Message::Ticket { ticket: ticket("UN1X") };
    assert_eq!(
        encode(&m),
        Some(vec![
            0x21, 0x04, 0x55, 0x4e, 0x31, 0x58, 0x00, 0x42, 0x00, 0x64, 0x00, 0x01, 0xe2, 0x40,
            0x00, 0x6e, 0x00, 0x01, 0xe3, 0xa8, 0x27, 0x10,
        ])
    );
}

#[test]
fn encodes_want_heartbeat_frame() {
    let m = Message::WantHeartbeat { interval: 1243 };
    assert_eq!(encode(&m), Some(vec![0x40, 0x00, 0x00, 0x04, 0xdb]));
}

#[test]
fn encodes_heartbeat_frame() {
    assert_eq!(encode(&Message::Heartbeat), Some(vec![0x41]));
}

#[test]
fn encodes_camera_frame() {
    let m = Message::IAmCamera { road: 368, mile: 1234, limit: 40 };
    assert_eq!(encode(&m), Some(vec![0x80, 0x01, 0x70, 0x04, 0xd2, 0x00, 0x28]));
}

#[test]
fn encodes_dispatcher_frame() {
    let m = Message::IAmDispatcher { roads: vec![66, 368, 5000] };
    assert_eq!(
        encode(&m),
        Some(vec![0x81, 0x03, 0x00, 0x42, 0x01, 0x70, 0x13, 0x88])
    );
}

#[test]
fn decodes_what_it_encodes() {
    let messages = vec![
        Message::Error { message: "".to_string() },
        Message::Error { message: "illegal msg".to_string() },
        Message::Plate { plate: "RE05BKG".to_string(), timestamp: 4294967295 },
        Message::Ticket { ticket: ticket("RE05BKG") },
        Message::WantHeartbeat { interval: 0 },
        Message::Heartbeat,
        Message::IAmCamera { road: 65535, mile: 0, limit: 256 },
        Message::IAmDispatcher { roads: vec![] },
        Message::IAmDispatcher { roads: vec![0, 1, 65535] },
    ];
    for m in messages {
        let bytes = encode(&m).unwrap();
        let n = bytes.len();
        assert_eq!(decode(&bytes), Ok((m, n)));
    }
}

#[test]
fn decode_stops_at_the_end_of_the_frame() {
    let mut bytes = encode(&Message::IAmCamera { road: 5, mile: 1, limit: 60 }).unwrap();
    bytes.extend_from_slice(&[0x41, 0x20, 0x07]);
    assert_eq!(
        decode(&bytes),
        Ok((Message::IAmCamera { road: 5, mile: 1, limit: 60 }, 7))
    );
    assert_eq!(decode(&bytes[7..]), Ok((Message::Heartbeat, 1)));
}

#[test]
fn decode_of_nothing_is_truncated() {
    assert_eq!(decode(&[]), Err(FrameError::Truncated));
}

#[test]
fn every_proper_prefix_of_a_frame_is_truncated() {
    let frames = vec![
        encode(&Message::Error { message: "bad".to_string() }).unwrap(),
        encode(&Message::Plate { plate: "UN1X".to_string(), timestamp: 1000 }).unwrap(),
        encode(&Message::Ticket { ticket: ticket("UN1X") }).unwrap(),
        encode(&Message::WantHeartbeat { interval: 10 }).unwrap(),
        encode(&Message::IAmCamera { road: 66, mile: 100, limit: 60 }).unwrap(),
        encode(&Message::IAmDispatcher { roads: vec![66, 67] }).unwrap(),
    ];
    for frame in frames {
        for n in 0..frame.len() {
            assert_eq!(decode(&frame[..n]), Err(FrameError::Truncated));
        }
    }
}

#[test]
fn unknown_opcode_is_reported_with_its_byte() {
    assert_eq!(decode(&[0x00]), Err(FrameError::UnknownOpcode(0x00)));
    assert_eq!(decode(&[0x11, 0x01, 0x02]), Err(FrameError::UnknownOpcode(0x11)));
    assert_eq!(decode(&[0xff]), Err(FrameError::UnknownOpcode(0xff)));
}

#[test]
fn text_that_is_not_utf8_is_refused() {
    assert_eq!(decode(&[0x10, 0x02, 0xc3, 0x28]), Err(FrameError::InvalidText));
    assert_eq!(
        decode(&[0x20, 0x01, 0xff, 0x00, 0x00, 0x00, 0x01]),
        Err(FrameError::InvalidText)
    );
}

#[test]
fn invalid_text_is_found_before_the_missing_rest() {
    assert_eq!(decode(&[0x20, 0x01, 0xff]), Err(FrameError::InvalidText));
    assert_eq!(decode(&[0x21, 0x01, 0x80, 0x00]), Err(FrameError::InvalidText));
}

#[test]
fn text_beyond_ascii_survives_the_round_trip() {
    let m = Message::Plate { plate: "ÄÖ–猫".to_string(), timestamp: 7 };
    let bytes = encode(&m).unwrap();
    assert_eq!(bytes[1] as usize, "ÄÖ–猫".len());
    let n = bytes.len();
    assert_eq!(decode(&bytes), Ok((m, n)));
}

#[test]
fn text_of_255_bytes_fits_and_256_does_not() {
    let fits = Message::Error { message: "a".repeat(255) };
    let bytes = encode(&fits).unwrap();
    assert_eq!(bytes.len(), 257);
    assert_eq!(bytes[1], 255);
    let n = bytes.len();
    assert_eq!(decode(&bytes), Ok((fits, n)));
    assert_eq!(encode(&Message::Error { message: "a".repeat(256) }), None);
    assert_eq!(
        encode(&Message::Plate { plate: "é".repeat(128), timestamp: 0 }),
        None
    );
    let mut t = ticket("x");
    t.plate = "b".repeat(300);
    assert_eq!(encode(&Message::Ticket { ticket: t }), None);
}

#[test]
fn road_list_of_255_fits_and_256_does_not() {
    let roads: Vec<u16> = (0..255).collect();
    let m = Message::IAmDispatcher { roads };
    let bytes = encode(&m).unwrap();
    assert_eq!(bytes.len(), 2 + 2 * 255);
    let n = bytes.len();
    assert_eq!(decode(&bytes), Ok((m, n)));
    let too_many: Vec<u16> = (0..256).collect();
    assert_eq!(encode(&Message::IAmDispatcher { roads: too_many }), None);
}

#[test]
fn ticket_duplicate_is_equal() {
    let t = ticket("UN1X");
    assert_eq!(t.duplicate(), t);
}
