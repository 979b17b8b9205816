//! Frames: from bytes to protocol messages and back.
//!
//! A frame is one opcode byte followed by the fields of that opcode, with no
//! length of its own.  Integers are big-endian; text is UTF-8 behind a
//! one-byte length; the road list is two-byte items behind a one-byte count.

use vstd::prelude::*;
use vstd::utf8::*;
use crate::wire::{
    array_field, be16, be16_items, be32, get_text, get_u16, get_u32, put_text, put_u16, put_u32, read16,
    read16_items, read32, read_text, text_field, text_fits,
};

verus! {

pub const OP_ERROR: u8 = 0x10;
pub const OP_PLATE: u8 = 0x20;
pub const OP_TICKET: u8 = 0x21;
pub const OP_WANT_HEARTBEAT: u8 = 0x40;
pub const OP_HEARTBEAT: u8 = 0x41;
pub const OP_I_AM_CAMERA: u8 = 0x80;
pub const OP_I_AM_DISPATCHER: u8 = 0x81;

/// A speeding ticket: two sightings of one plate on one road, the earlier
/// first, and the average speed between them in hundredths of a mile per hour.
#[derive(Clone, Debug, PartialEq, Eq)]
pub struct Ticket {
    pub plate: String,
    pub road: u16,
    pub mile1: u16,
    pub timestamp1: u32,
    pub mile2: u16,
    pub timestamp2: u32,
    pub speed: u16,
}

/// The mathematical content of a [`Ticket`].
pub struct TicketView {
    pub plate: Seq<char>,
    pub road: u16,
    pub mile1: u16,
    pub timestamp1: u32,
    pub mile2: u16,
    pub timestamp2: u32,
    pub speed: u16,
}

impl View for Ticket {
    type V = TicketView;

    open spec fn view(&self) -> TicketView {
        TicketView {
            plate: self.plate@,
            road: self.road,
            mile1: self.mile1,
            timestamp1: self.timestamp1,
            mile2: self.mile2,
            timestamp2: self.timestamp2,
            speed: self.speed,
        }
    }
}

impl Ticket {
    /// A copy with the same content.
    pub fn duplicate(&self) -> (t: Ticket)
        ensures
            t@ == self@,
    {
        Ticket {
            plate: self.plate.clone(),
            road: self.road,
            mile1: self.mile1,
            timestamp1: self.timestamp1,
            mile2: self.mile2,
            timestamp2: self.timestamp2,
            speed: self.speed,
        }
    }
}

/// One protocol message.
#[derive(Clone, Debug, PartialEq, Eq)]
pub enum Message {
    Error { message: String },
    Plate { plate: String, timestamp: u32 },
    Ticket { ticket: Ticket },
    WantHeartbeat { interval: u32 },
    Heartbeat,
    IAmCamera { road: u16, mile: u16, limit: u16 },
    IAmDispatcher { roads: Vec<u16> },
}

/// The mathematical content of a [`Message`].
pub enum MessageView {
    Error { message: Seq<char> },
    Plate { plate: Seq<char>, timestamp: u32 },
    Ticket { ticket: TicketView },
    WantHeartbeat { interval: u32 },
    Heartbeat,
    IAmCamera { road: u16, mile: u16, limit: u16 },
    IAmDispatcher { roads: Seq<u16> },
}

impl View for Message {
    type V = MessageView;

    open spec fn view(&self) -> MessageView {
        match *self {
            Message::Error { message } => MessageView::Error { message: message@ },
            Message::Plate { plate, timestamp } => MessageView::Plate { plate: plate@, timestamp },
            Message::Ticket { ticket } => MessageView::Ticket { ticket: ticket@ },
            Message::WantHeartbeat { interval } => MessageView::WantHeartbeat { interval },
            Message::Heartbeat => MessageView::Heartbeat,
            Message::IAmCamera { road, mile, limit } => MessageView::IAmCamera { road, mile, limit },
            Message::IAmDispatcher { roads } => MessageView::IAmDispatcher { roads: roads@ },
        }
    }
}

/// Why bytes could not be read as a frame.
#[derive(Clone, Copy, Debug, PartialEq, Eq, Structural)]
pub enum FrameError {
    /// The bytes end before the frame does.
    Truncated,
    /// The first byte is no opcode of the protocol.
    UnknownOpcode(u8),
    /// A text field does not hold UTF-8.
    InvalidText,
}

/// A message can be framed when each text fits its length byte and the road
/// list fits its count byte.
pub open spec fn encodable(m: MessageView) -> bool {
    match m {
        MessageView::Error { message } => text_fits(message),
        MessageView::Plate { plate, .. } => text_fits(plate),
        MessageView::Ticket { ticket } => text_fits(ticket.plate),
        MessageView::IAmDispatcher { roads } => roads.len() <= 255,
        _ => true,
    }
}

/// The fields of a ticket behind its opcode.
pub open spec fn ticket_fields(t: TicketView) -> Seq<u8> {
    text_field(t.plate) + be16(t.road) + be16(t.mile1) + be32(t.timestamp1) + be16(t.mile2)
        + be32(t.timestamp2) + be16(t.speed)
}

/// The frame of a message: the wire format itself.
pub open spec fn frame(m: MessageView) -> Seq<u8> {
    match m {
        MessageView::Error { message } => seq![OP_ERROR] + text_field(message),
        MessageView::Plate { plate, timestamp } => seq![OP_PLATE] + text_field(plate) + be32(
            timestamp,
        ),
        MessageView::Ticket { ticket } => seq![OP_TICKET] + ticket_fields(ticket),
        MessageView::WantHeartbeat { interval } => seq![OP_WANT_HEARTBEAT] + be32(interval),
        MessageView::Heartbeat => seq![OP_HEARTBEAT],
        MessageView::IAmCamera { road, mile, limit } => seq![OP_I_AM_CAMERA] + be16(road) + be16(
            mile,
        ) + be16(limit),
        MessageView::IAmDispatcher { roads } => seq![OP_I_AM_DISPATCHER] + array_field(roads),
    }
}

/// What reading the fields of a ticket at offset 1 yields.
pub open spec fn parse_ticket(b: Seq<u8>) -> Result<(MessageView, int), FrameError> {
    match read_text(b, 1) {
        None => Err(FrameError::Truncated),
        Some(None) => Err(FrameError::InvalidText),
        Some(Some((plate, at))) => if at + 16 > b.len() {
            Err(FrameError::Truncated)
        } else {
            Ok(
                (
                    MessageView::Ticket {
                        ticket: TicketView {
                            plate,
                            road: read16(b, at),
                            mile1: read16(b, at + 2),
                            timestamp1: read32(b, at + 4),
                            mile2: read16(b, at + 8),
                            timestamp2: read32(b, at + 10),
                            speed: read16(b, at + 14),
                        },
                    },
                    at + 16,
                ),
            )
        },
    }
}

/// What reading one frame from the front of `b` yields: the message and the
/// number of bytes it took, or the reason there is none.  Fields are read in
/// order, and the first one that fails decides the error.
pub open spec fn parse(b: Seq<u8>) -> Result<(MessageView, int), FrameError> {
    if b.len() == 0 {
        Err(FrameError::Truncated)
    } else if b[0] == OP_ERROR {
        match read_text(b, 1) {
            None => Err(FrameError::Truncated),
            Some(None) => Err(FrameError::InvalidText),
            Some(Some((message, at))) => Ok((MessageView::Error { message }, at)),
        }
    } else if b[0] == OP_PLATE {
        match read_text(b, 1) {
            None => Err(FrameError::Truncated),
            Some(None) => Err(FrameError::InvalidText),
            Some(Some((plate, at))) => if at + 4 > b.len() {
                Err(FrameError::Truncated)
            } else {
                Ok((MessageView::Plate { plate, timestamp: read32(b, at) }, at + 4))
            },
        }
    } else if b[0] == OP_TICKET {
        parse_ticket(b)
    } else if b[0] == OP_WANT_HEARTBEAT {
        if b.len() < 5 {
            Err(FrameError::Truncated)
        } else {
            Ok((MessageView::WantHeartbeat { interval: read32(b, 1) }, 5))
        }
    } else if b[0] == OP_HEARTBEAT {
        Ok((MessageView::Heartbeat, 1))
    } else if b[0] == OP_I_AM_CAMERA {
        if b.len() < 7 {
            Err(FrameError::Truncated)
        } else {
            Ok(
                (
                    MessageView::IAmCamera {
                        road: read16(b, 1),
                        mile: read16(b, 3),
                        limit: read16(b, 5),
                    },
                    7,
                ),
            )
        }
    } else if b[0] == OP_I_AM_DISPATCHER {
        if b.len() < 2 || b.len() < 2 + 2 * (b[1] as int) {
            Err(FrameError::Truncated)
        } else {
            Ok(
                (
                    MessageView::IAmDispatcher { roads: read16_items(b, 2, b[1] as nat) },
                    2 + 2 * (b[1] as int),
                ),
            )
        }
    } else {
        Err(FrameError::UnknownOpcode(b[0]))
    }
}

/// Whether an exec decoding result is the one that `parse` describes.
pub open spec fn decoded_as(
    r: Result<(Message, usize), FrameError>,
    p: Result<(MessageView, int), FrameError>,
) -> bool {
    match (r, p) {
        (Ok((m, n)), Ok((mv, k))) => m@ == mv && n == k,
        (Err(e), Err(f)) => e == f,
        _ => false,
    }
}

fn decode_ticket(buf: &[u8]) -> (r: Result<(Message, usize), FrameError>)
    requires
        buf@.len() > 0,
    ensures
        decoded_as(r, parse_ticket(buf@)),
{
    match get_text(buf, 1) {
        None => Err(FrameError::Truncated),
        Some(None) => Err(FrameError::InvalidText),
        Some(Some((plate, at))) => {
            if buf.len() - at < 16 {
                return Err(FrameError::Truncated);
            }
            let ticket = Ticket {
                plate,
                road: get_u16(buf, at),
                mile1: get_u16(buf, at + 2),
                timestamp1: get_u32(buf, at + 4),
                mile2: get_u16(buf, at + 8),
                timestamp2: get_u32(buf, at + 10),
                speed: get_u16(buf, at + 14),
            };
            Ok((Message::Ticket { ticket }, at + 16))
        },
    }
}

fn decode_roads(buf: &[u8]) -> (r: Result<(Message, usize), FrameError>)
    requires
        buf@.len() > 0,
        buf@[0] == OP_I_AM_DISPATCHER,
    ensures
        decoded_as(r, parse(buf@)),
{
    if buf.len() < 2 {
        return Err(FrameError::Truncated);
    }
    let n: usize = buf[1] as usize;
    if buf.len() - 2 < 2 * n {
        return Err(FrameError::Truncated);
    }
    let mut roads: Vec<u16> = Vec::new();
    let mut i: usize = 0;
    while i < n
        invariant
            i <= n,
            n == buf@[1],
            2 + 2 * n <= buf@.len(),
            roads@ == read16_items(buf@, 2, i as nat),
        decreases n - i,
    {
        roads.push(get_u16(buf, 2 + 2 * i));
        i = i + 1;
        assert(roads@ =~= read16_items(buf@, 2, i as nat));
    }
    Ok((Message::IAmDispatcher { roads }, 2 + 2 * n))
}

/// Reads one frame from the front of `buf`.
///
/// On success the message comes with the number of bytes it occupied, so the
/// caller can go on behind it.  `Truncated` means that `buf` is the beginning
/// of a frame that more bytes may complete.
pub fn decode(buf: &[u8]) -> (r: Result<(Message, usize), FrameError>)
    ensures
        decoded_as(r, parse(buf@)),
        r matches Ok((m, n)) ==> 0 < n <= buf@.len(),
{
    if buf.len() == 0 {
        return Err(FrameError::Truncated);
    }
    let op: u8 = buf[0];
    if op == OP_ERROR {
        match get_text(buf, 1) {
            None => Err(FrameError::Truncated),
            Some(None) => Err(FrameError::InvalidText),
            Some(Some((message, at))) => Ok((Message::Error { message }, at)),
        }
    } else if op == OP_PLATE {
        match get_text(buf, 1) {
            None => Err(FrameError::Truncated),
            Some(None) => Err(FrameError::InvalidText),
            Some(Some((plate, at))) => {
                if buf.len() - at < 4 {
                    return Err(FrameError::Truncated);
                }
                let timestamp = get_u32(buf, at);
                Ok((Message::Plate { plate, timestamp }, at + 4))
            },
        }
    } else if op == OP_TICKET {
        decode_ticket(buf)
    } else if op == OP_WANT_HEARTBEAT {
        if buf.len() < 5 {
            return Err(FrameError::Truncated);
        }
        Ok((Message::WantHeartbeat { interval: get_u32(buf, 1) }, 5))
    } else if op == OP_HEARTBEAT {
        Ok((Message::Heartbeat, 1))
    } else if op == OP_I_AM_CAMERA {
        if buf.len() < 7 {
            return Err(FrameError::Truncated);
        }
        Ok(
            (
                Message::IAmCamera {
                    road: get_u16(buf, 1),
                    mile: get_u16(buf, 3),
                    limit: get_u16(buf, 5),
                },
                7,
            ),
        )
    } else if op == OP_I_AM_DISPATCHER {
        decode_roads(buf)
    } else {
        Err(FrameError::UnknownOpcode(op))
    }
}

fn encode_roads(out: &mut Vec<u8>, roads: &Vec<u16>)
    requires
        roads@.len() <= 255,
    ensures
        final(out)@ == old(out)@ + array_field(roads@),
{
    let n: usize = roads.len();
    out.push(n as u8);
    let mut i: usize = 0;
    while i < n
        invariant
            i <= n,
            n == roads@.len(),
            out@ == old(out)@ + seq![n as u8] + be16_items(roads@.subrange(0, i as int)),
        decreases n - i,
    {
        put_u16(out, roads[i]);
        i = i + 1;
        assert(roads@.subrange(0, i as int).drop_last() =~= roads@.subrange(0, i - 1));
        assert(out@ =~= old(out)@ + seq![n as u8] + be16_items(roads@.subrange(0, i as int)));
    }
    assert(roads@.subrange(0, n as int) =~= roads@);
    assert(out@ =~= old(out)@ + array_field(roads@));
}

fn encode_ticket(out: &mut Vec<u8>, t: &Ticket) -> (ok: bool)
    ensures
        ok == text_fits(t@.plate),
        ok ==> final(out)@ == old(out)@ + ticket_fields(t@),
{
    if !put_text(out, &t.plate) {
        return false;
    }
    put_u16(out, t.road);
    put_u16(out, t.mile1);
    put_u32(out, t.timestamp1);
    put_u16(out, t.mile2);
    put_u32(out, t.timestamp2);
    put_u16(out, t.speed);
    assert(out@ =~= old(out)@ + ticket_fields(t@));
    true
}

/// The frame of `m`, or `None` when a text or the road list of `m` is too
/// long for its length byte.
pub fn encode(m: &Message) -> (r: Option<Vec<u8>>)
    ensures
        r is Some <==> encodable(m@),
        r matches Some(bytes) ==> bytes@ == frame(m@),
{
    let mut out: Vec<u8> = Vec::new();
    match m {
        Message::Error { message } => {
            out.push(OP_ERROR);
            if !put_text(&mut out, message) {
                return None;
            }
        },
        Message::Plate { plate, timestamp } => {
            out.push(OP_PLATE);
            if !put_text(&mut out, plate) {
                return None;
            }
            put_u32(&mut out, *timestamp);
        },
        Message::Ticket { ticket } => {
            out.push(OP_TICKET);
            if !encode_ticket(&mut out, ticket) {
                return None;
            }
        },
        Message::WantHeartbeat { interval } => {
            out.push(OP_WANT_HEARTBEAT);
            put_u32(&mut out, *interval);
        },
        Message::Heartbeat => {
            out.push(OP_HEARTBEAT);
        },
        Message::IAmCamera { road, mile, limit } => {
            out.push(OP_I_AM_CAMERA);
            put_u16(&mut out, *road);
            put_u16(&mut out, *mile);
            put_u16(&mut out, *limit);
        },
        Message::IAmDispatcher { roads } => {
            if roads.len() > 255 {
                return None;
            }
            out.push(OP_I_AM_DISPATCHER);
            encode_roads(&mut out, roads);
        },
    }
    assert(out@ =~= frame(m@));
    Some(out)
}

} // verus!
