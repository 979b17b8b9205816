//! The dispatch core as a state machine over mathematical values.
//!
//! The core owns everything that connections share: who is connected and in
//! which role, the limit of each road, every sighting ever reported, the
//! ledger of tickets issued, and the tickets that wait for a dispatcher.  It
//! takes one event at a time and answers with the instructions to carry out.

use vstd::prelude::*;
use crate::codec::{FrameError, MessageView, TicketView};
use crate::connection::{
    fresh, identify_camera, identify_dispatcher, reporting_camera, request_heartbeat,
    unknown_opcode_text, violation_text, Camera, ConnectionView, Violation,
};
use crate::ledger::{blocked, sound};
use crate::registry::dispatcher_for;
use crate::speed::{distance, over_limit, ticket_speed};
use crate::wire::text_fits;

verus! {

/// One observation of a plate at a milepost of a road.
pub struct SightingView {
    pub plate: Seq<char>,
    pub road: u16,
    pub mile: u16,
    pub timestamp: u32,
}

/// Seconds between two sightings.
pub open spec fn elapsed(a: SightingView, b: SightingView) -> int {
    if a.timestamp <= b.timestamp {
        b.timestamp - a.timestamp
    } else {
        a.timestamp - b.timestamp
    }
}

/// Whether two sightings show one plate on one road, at different times, at
/// an average speed of more than half a mile per hour above `limit`.
pub open spec fn speeding(a: SightingView, b: SightingView, limit: u16) -> bool {
    &&& a.plate == b.plate
    &&& a.road == b.road
    &&& a.timestamp != b.timestamp
    &&& over_limit(distance(a.mile as int, b.mile as int), elapsed(a, b), limit as int)
}

/// The ticket for a pair of sightings, whichever arrived first: the earlier
/// sighting comes first on the ticket.
pub open spec fn ticket_between(a: SightingView, b: SightingView) -> TicketView {
    let first = if a.timestamp <= b.timestamp {
        a
    } else {
        b
    };
    let second = if a.timestamp <= b.timestamp {
        b
    } else {
        a
    };
    TicketView {
        plate: a.plate,
        road: a.road,
        mile1: first.mile,
        timestamp1: first.timestamp,
        mile2: second.mile,
        timestamp2: second.timestamp,
        speed: ticket_speed(distance(a.mile as int, b.mile as int), elapsed(a, b)) as u16,
    }
}

/// The tickets that a new sighting `s` brings.  It is weighed against every
/// recorded sighting in the order in which they arrived; a pair that is
/// speeding gets a ticket unless a day of that ticket is already taken, by a
/// ticket of the ledger or by one issued just before for the same sighting.
pub open spec fn tickets_for(
    history: Seq<SightingView>,
    s: SightingView,
    limit: u16,
    issued: Seq<TicketView>,
) -> Seq<TicketView>
    decreases history.len(),
{
    if history.len() == 0 {
        Seq::<TicketView>::empty()
    } else {
        let earlier = tickets_for(history.drop_last(), s, limit, issued);
        let t = ticket_between(history.last(), s);
        if speeding(history.last(), s, limit) && !blocked(issued + earlier, t) {
            earlier.push(t)
        } else {
            earlier
        }
    }
}

/// What happens to the core.
pub enum EventView {
    Connected { conn: u64 },
    Disconnected { conn: u64 },
    BadFrame { conn: u64, error: FrameError },
    IAmCamera { conn: u64, camera: Camera },
    IAmDispatcher { conn: u64, roads: Seq<u16> },
    WantHeartbeat { conn: u64, interval: u32 },
    Plate { conn: u64, plate: Seq<char>, timestamp: u32 },
}

/// What the core asks to be done.
pub enum OutputView {
    Send { conn: u64, message: MessageView },
    Close { conn: u64 },
    StartHeartbeat { conn: u64, interval: u32 },
}

/// The state of the core.
pub struct CoreView {
    /// The record of each open connection.
    pub conns: Map<u64, ConnectionView>,
    /// The limit of each road, set by the first camera on it.
    pub limits: Map<u16, u16>,
    /// Every sighting reported, in order of arrival.
    pub sightings: Seq<SightingView>,
    /// The ledger: every ticket issued, in order.
    pub issued: Seq<TicketView>,
    /// The tickets that wait for a dispatcher, oldest first.
    pub pending: Seq<TicketView>,
}

/// The core before any event.
pub open spec fn initial() -> CoreView {
    CoreView {
        conns: Map::empty(),
        limits: Map::empty(),
        sightings: Seq::empty(),
        issued: Seq::empty(),
        pending: Seq::empty(),
    }
}

/// The limit that holds for a camera's road: the one the road got from its
/// first camera.
pub open spec fn limit_for(limits: Map<u16, u16>, camera: Camera) -> u16 {
    if limits.contains_key(camera.road) {
        limits[camera.road]
    } else {
        camera.limit
    }
}

/// The instructions that send `tickets` to `conn`, in order.
pub open spec fn deliveries(conn: u64, tickets: Seq<TicketView>) -> Seq<OutputView> {
    tickets.map_values(
        |t: TicketView| OutputView::Send { conn, message: MessageView::Ticket { ticket: t } },
    )
}

/// A violation is answered with an error frame; then the connection is
/// closed and its record dropped.
pub open spec fn reject(pre: CoreView, conn: u64, v: Violation) -> (CoreView, Seq<OutputView>) {
    (
        CoreView { conns: pre.conns.remove(conn), ..pre },
        seq![
            OutputView::Send { conn, message: MessageView::Error { message: violation_text(v) } },
            OutputView::Close { conn },
        ],
    )
}

/// A connection that was accepted gets a fresh record; one that has a record
/// keeps it.
pub open spec fn on_connected(pre: CoreView, conn: u64) -> (CoreView, Seq<OutputView>) {
    if pre.conns.contains_key(conn) {
        (pre, Seq::empty())
    } else {
        (CoreView { conns: pre.conns.insert(conn, fresh()), ..pre }, Seq::empty())
    }
}

/// Only the record goes: sightings, ledger and pending tickets stay.
pub open spec fn on_disconnected(pre: CoreView, conn: u64) -> (CoreView, Seq<OutputView>) {
    (CoreView { conns: pre.conns.remove(conn), ..pre }, Seq::empty())
}

/// An unknown opcode is answered with an error frame; bytes that cannot be
/// framed get no answer.  Either way the connection is closed.
pub open spec fn on_bad_frame(pre: CoreView, conn: u64, error: FrameError) -> (
    CoreView,
    Seq<OutputView>,
) {
    let post = CoreView { conns: pre.conns.remove(conn), ..pre };
    match error {
        FrameError::UnknownOpcode(_) => (
            post,
            seq![
                OutputView::Send {
                    conn,
                    message: MessageView::Error { message: unknown_opcode_text() },
                },
                OutputView::Close { conn },
            ],
        ),
        _ => (post, seq![OutputView::Close { conn }]),
    }
}

/// A first `IAmCamera` sets the role, and sets the limit of the road unless
/// an earlier camera has done so.
pub open spec fn on_camera(pre: CoreView, conn: u64, camera: Camera) -> (
    CoreView,
    Seq<OutputView>,
) {
    match identify_camera(pre.conns[conn], camera) {
        Ok(record) => (
            CoreView {
                conns: pre.conns.insert(conn, record),
                limits: if pre.limits.contains_key(camera.road) {
                    pre.limits
                } else {
                    pre.limits.insert(camera.road, camera.limit)
                },
                ..pre
            },
            Seq::empty(),
        ),
        Err(v) => reject(pre, conn, v),
    }
}

/// A new dispatcher is at once sent every pending ticket for its roads,
/// oldest first; those tickets leave the queue.
pub open spec fn on_dispatcher(pre: CoreView, conn: u64, roads: Seq<u16>) -> (
    CoreView,
    Seq<OutputView>,
) {
    match identify_dispatcher(pre.conns[conn], roads) {
        Ok(record) => (
            CoreView {
                conns: pre.conns.insert(conn, record),
                pending: pre.pending.filter(|t: TicketView| !roads.contains(t.road)),
                ..pre
            },
            deliveries(conn, pre.pending.filter(|t: TicketView| roads.contains(t.road))),
        ),
        Err(v) => reject(pre, conn, v),
    }
}

/// A first request is noted; heartbeats start only for an interval above 0.
pub open spec fn on_heartbeat_request(pre: CoreView, conn: u64, interval: u32) -> (
    CoreView,
    Seq<OutputView>,
) {
    match request_heartbeat(pre.conns[conn]) {
        Ok(record) => (
            CoreView { conns: pre.conns.insert(conn, record), ..pre },
            if interval == 0 {
                Seq::empty()
            } else {
                seq![OutputView::StartHeartbeat { conn, interval }]
            },
        ),
        Err(v) => reject(pre, conn, v),
    }
}

/// A plate from a camera is recorded and weighed against the sightings on
/// record under the limit of the camera's road.  The tickets that it brings
/// enter the ledger; they go to the dispatcher of the road or, where there
/// is none, to the end of the queue.
pub open spec fn on_plate(pre: CoreView, conn: u64, plate: Seq<char>, timestamp: u32) -> (
    CoreView,
    Seq<OutputView>,
) {
    match reporting_camera(pre.conns[conn]) {
        Err(v) => reject(pre, conn, v),
        Ok(camera) => if !text_fits(plate) {
            reject(pre, conn, Violation::PlateTooLong)
        } else {
            let s = SightingView { plate, road: camera.road, mile: camera.mile, timestamp };
            let new = tickets_for(
                pre.sightings,
                s,
                limit_for(pre.limits, camera),
                pre.issued,
            );
            match dispatcher_for(pre.conns, camera.road) {
                Some(dispatcher) => (
                    CoreView {
                        sightings: pre.sightings.push(s),
                        issued: pre.issued + new,
                        ..pre
                    },
                    deliveries(dispatcher, new),
                ),
                None => (
                    CoreView {
                        sightings: pre.sightings.push(s),
                        issued: pre.issued + new,
                        pending: pre.pending + new,
                        ..pre
                    },
                    Seq::empty(),
                ),
            }
        },
    }
}

/// The connection that an event is about.
pub open spec fn subject(event: EventView) -> u64 {
    match event {
        EventView::Connected { conn } => conn,
        EventView::Disconnected { conn } => conn,
        EventView::BadFrame { conn, .. } => conn,
        EventView::IAmCamera { conn, .. } => conn,
        EventView::IAmDispatcher { conn, .. } => conn,
        EventView::WantHeartbeat { conn, .. } => conn,
        EventView::Plate { conn, .. } => conn,
    }
}

/// The state after `event` and the instructions that it brings.  But for
/// `Connected`, an event of a connection without a record changes nothing:
/// nothing is forwarded for a connection that was closed.
pub open spec fn step(pre: CoreView, event: EventView) -> (CoreView, Seq<OutputView>) {
    match event {
        EventView::Connected { conn } => on_connected(pre, conn),
        _ => if !pre.conns.contains_key(subject(event)) {
            (pre, Seq::empty())
        } else {
            match event {
                EventView::Connected { conn } => on_connected(pre, conn),
                EventView::Disconnected { conn } => on_disconnected(pre, conn),
                EventView::BadFrame { conn, error } => on_bad_frame(pre, conn, error),
                EventView::IAmCamera { conn, camera } => on_camera(pre, conn, camera),
                EventView::IAmDispatcher { conn, roads } => on_dispatcher(pre, conn, roads),
                EventView::WantHeartbeat { conn, interval } => on_heartbeat_request(
                    pre,
                    conn,
                    interval,
                ),
                EventView::Plate { conn, plate, timestamp } => on_plate(
                    pre,
                    conn,
                    plate,
                    timestamp,
                ),
            }
        },
    }
}

/// What holds of the core at all times: the ledger is sound, every plate on
/// record fits a text field, and no ticket waits while a dispatcher serves
/// its road.
pub open spec fn consistent(c: CoreView) -> bool {
    &&& sound(c.issued)
    &&& forall|i: int| 0 <= i < c.sightings.len() ==> text_fits((#[trigger] c.sightings[i]).plate)
    &&& forall|i: int| 0 <= i < c.issued.len() ==> text_fits((#[trigger] c.issued[i]).plate)
    &&& forall|i: int|
        0 <= i < c.pending.len() ==> text_fits((#[trigger] c.pending[i]).plate) && dispatcher_for(
            c.conns,
            c.pending[i].road,
        ) is None
}

/// The state after a run of events from the start.
pub open spec fn run(events: Seq<EventView>) -> CoreView
    decreases events.len(),
{
    if events.len() == 0 {
        initial()
    } else {
        step(run(events.drop_last()), events.last()).0
    }
}

} // verus!
