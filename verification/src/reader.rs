//! From the bytes of one connection to the events of the core.
//!
//! The caller keeps the bytes that it has read and not yet used.  It asks
//! for the next event whenever bytes arrive or the stream ends, hands the
//! event to the core and drops the bytes that the event took.

use vstd::prelude::*;
use crate::codec::{
    decode, parse, FrameError, Message, MessageView, OP_ERROR, OP_HEARTBEAT, OP_TICKET,
};
use crate::connection::Camera;
use crate::dispatch::Event;
use crate::model::EventView;

verus! {

/// What a frame from a client means to the core.  The frames that only the
/// server sends are, coming from a client, frames of no known kind.
pub open spec fn event_of(conn: u64, m: MessageView) -> EventView {
    match m {
        MessageView::Plate { plate, timestamp } => EventView::Plate { conn, plate, timestamp },
        MessageView::WantHeartbeat { interval } => EventView::WantHeartbeat { conn, interval },
        MessageView::IAmCamera { road, mile, limit } => EventView::IAmCamera {
            conn,
            camera: Camera { road, mile, limit },
        },
        MessageView::IAmDispatcher { roads } => EventView::IAmDispatcher { conn, roads },
        MessageView::Error { .. } => EventView::BadFrame {
            conn,
            error: FrameError::UnknownOpcode(OP_ERROR),
        },
        MessageView::Ticket { .. } => EventView::BadFrame {
            conn,
            error: FrameError::UnknownOpcode(OP_TICKET),
        },
        MessageView::Heartbeat => EventView::BadFrame {
            conn,
            error: FrameError::UnknownOpcode(OP_HEARTBEAT),
        },
    }
}

/// The next event in the unused bytes of `conn` and the number of bytes it
/// takes.  `ended` says that the stream has ended, so no more bytes will
/// come.  A whole frame gives its event.  The beginning of a frame gives no
/// event while the stream goes on; at its end it is a bad frame, or, with no
/// bytes left at all, the disconnect.  Bytes that begin no frame are a bad
/// frame and are used up.
pub open spec fn next_event(conn: u64, bytes: Seq<u8>, ended: bool) -> (Option<EventView>, int) {
    match parse(bytes) {
        Ok((m, n)) => (Some(event_of(conn, m)), n),
        Err(FrameError::Truncated) => if !ended {
            (None, 0)
        } else if bytes.len() == 0 {
            (Some(EventView::Disconnected { conn }), 0)
        } else {
            (
                Some(EventView::BadFrame { conn, error: FrameError::Truncated }),
                bytes.len() as int,
            )
        },
        Err(error) => (Some(EventView::BadFrame { conn, error }), bytes.len() as int),
    }
}

/// What a frame from a client means to the core.
pub fn event_for(conn: u64, m: Message) -> (e: Event)
    ensures
        e@ == event_of(conn, m@),
{
    match m {
        Message::Plate { plate, timestamp } => Event::Plate { conn, plate, timestamp },
        Message::WantHeartbeat { interval } => Event::WantHeartbeat { conn, interval },
        Message::IAmCamera { road, mile, limit } => Event::IAmCamera {
            conn,
            camera: Camera { road, mile, limit },
        },
        Message::IAmDispatcher { roads } => Event::IAmDispatcher { conn, roads },
        Message::Error { .. } => Event::BadFrame {
            conn,
            error: FrameError::UnknownOpcode(OP_ERROR),
        },
        Message::Ticket { .. } => Event::BadFrame {
            conn,
            error: FrameError::UnknownOpcode(OP_TICKET),
        },
        Message::Heartbeat => Event::BadFrame {
            conn,
            error: FrameError::UnknownOpcode(OP_HEARTBEAT),
        },
    }
}

/// The next event in the unused bytes `buf` of `conn`, and the number of
/// bytes to drop from the front of `buf`.
pub fn read_event(conn: u64, buf: &[u8], ended: bool) -> (r: (Option<Event>, usize))
    ensures
        r.1 <= buf@.len(),
        r.1 == next_event(conn, buf@, ended).1,
        match (r.0, next_event(conn, buf@, ended).0) {
            (Some(e), Some(v)) => e@ == v,
            (None, None) => true,
            _ => false,
        },
{
    match decode(buf) {
        Ok((m, n)) => (Some(event_for(conn, m)), n),
        Err(FrameError::Truncated) => {
            if !ended {
                (None, 0)
            } else if buf.len() == 0 {
                (Some(Event::Disconnected { conn }), 0)
            } else {
                (Some(Event::BadFrame { conn, error: FrameError::Truncated }), buf.len())
            }
        },
        Err(error) => (Some(Event::BadFrame { conn, error }), buf.len()),
    }
}

/// While the stream goes on, an event is given only for bytes that hold a
/// whole frame or can begin none; and a stream that goes on gives no
/// disconnect.
pub proof fn lemma_waits_for_whole_frames(conn: u64, bytes: Seq<u8>)
    ensures
        next_event(conn, bytes, false).0 is None <==> parse(bytes) == Err::<
            (MessageView, int),
            FrameError,
        >(FrameError::Truncated),
        !(next_event(conn, bytes, false).0 matches Some(EventView::Disconnected { .. })),
{
}

/// At the end of the stream every rest of bytes gives an event, and the
/// disconnect is given exactly when no bytes are left.
pub proof fn lemma_end_of_stream(conn: u64, bytes: Seq<u8>)
    ensures
        next_event(conn, bytes, true).0 is Some,
        next_event(conn, bytes, true).0 == Some(EventView::Disconnected { conn }) <==> bytes.len()
            == 0,
{
}

} // verus!
