//! The dispatch core: the one owner of all state that connections share.
//!
//! The caller runs the sockets and timers.  It hands the core one [`Event`]
//! at a time and carries out the [`Output`]s that come back, in order.

use std::collections::HashMap;
use vstd::prelude::*;
use crate::codec::{FrameError, Message, MessageView, Ticket, TicketView};
use crate::connection::{lists_road, unknown_opcode_text, Camera, Violation};
use crate::ledger::{is_blocked, sound, ticket_views};
use crate::model::{
    consistent, deliveries, initial, on_camera, on_dispatcher,
    on_heartbeat_request, on_plate, speeding, step, ticket_between, tickets_for, CoreView,
    EventView, OutputView, SightingView,
};
use crate::model_laws::lemma_step_consistent;
use crate::registry::Registry;
use crate::speed::{exceeds_limit, miles_between, speed_for_ticket};

verus! {

/// One observation of a plate at a milepost of a road.
#[derive(Clone, Debug, PartialEq, Eq)]
pub struct Sighting {
    pub plate: String,
    pub road: u16,
    pub mile: u16,
    pub timestamp: u32,
}

impl View for Sighting {
    type V = SightingView;

    open spec fn view(&self) -> SightingView {
        SightingView {
            plate: self.plate@,
            road: self.road,
            mile: self.mile,
            timestamp: self.timestamp,
        }
    }
}

/// What happens to the core: a connection opens or closes, or a frame
/// arrives on one, well-formed or not.
#[derive(Clone, Debug, PartialEq, Eq)]
pub enum Event {
    Connected { conn: u64 },
    Disconnected { conn: u64 },
    BadFrame { conn: u64, error: FrameError },
    IAmCamera { conn: u64, camera: Camera },
    IAmDispatcher { conn: u64, roads: Vec<u16> },
    WantHeartbeat { conn: u64, interval: u32 },
    Plate { conn: u64, plate: String, timestamp: u32 },
}

impl View for Event {
    type V = EventView;

    open spec fn view(&self) -> EventView {
        match *self {
            Event::Connected { conn } => EventView::Connected { conn },
            Event::Disconnected { conn } => EventView::Disconnected { conn },
            Event::BadFrame { conn, error } => EventView::BadFrame { conn, error },
            Event::IAmCamera { conn, camera } => EventView::IAmCamera { conn, camera },
            Event::IAmDispatcher { conn, roads } => EventView::IAmDispatcher {
                conn,
                roads: roads@,
            },
            Event::WantHeartbeat { conn, interval } => EventView::WantHeartbeat { conn, interval },
            Event::Plate { conn, plate, timestamp } => EventView::Plate {
                conn,
                plate: plate@,
                timestamp,
            },
        }
    }
}

/// What the core asks its caller to do.
#[derive(Clone, Debug, PartialEq, Eq)]
pub enum Output {
    /// Put the frame of `message` on the outbound queue of `conn`.
    Send { conn: u64, message: Message },
    /// Close `conn` once its outbound queue is written out.
    Close { conn: u64 },
    /// Start the heartbeat timer of `conn`.
    StartHeartbeat { conn: u64, interval: u32 },
}

impl View for Output {
    type V = OutputView;

    open spec fn view(&self) -> OutputView {
        match *self {
            Output::Send { conn, message } => OutputView::Send { conn, message: message@ },
            Output::Close { conn } => OutputView::Close { conn },
            Output::StartHeartbeat { conn, interval } => OutputView::StartHeartbeat {
                conn,
                interval,
            },
        }
    }
}

/// The contents of a list of sightings.
pub open spec fn sighting_views(sightings: Seq<Sighting>) -> Seq<SightingView> {
    sightings.map_values(|s: Sighting| s@)
}

/// The contents of a list of instructions.
pub open spec fn output_views(outputs: Seq<Output>) -> Seq<OutputView> {
    outputs.map_values(|o: Output| o@)
}

/// Whether two sightings make a speeding pair under `limit`.
pub fn is_speeding(a: &Sighting, b: &Sighting, limit: u16) -> (r: bool)
    ensures
        r == speeding(a@, b@, limit),
{
    if !(a.plate == b.plate) || a.road != b.road || a.timestamp == b.timestamp {
        return false;
    }
    let seconds: u32 = if a.timestamp <= b.timestamp {
        b.timestamp - a.timestamp
    } else {
        a.timestamp - b.timestamp
    };
    exceeds_limit(miles_between(a.mile, b.mile), seconds, limit)
}

/// The ticket for two sightings of one plate at different times.
pub fn ticket_for_pair(a: &Sighting, b: &Sighting) -> (t: Ticket)
    requires
        a@.timestamp != b@.timestamp,
    ensures
        t@ == ticket_between(a@, b@),
{
    let miles: u16 = miles_between(a.mile, b.mile);
    if a.timestamp <= b.timestamp {
        Ticket {
            plate: a.plate.clone(),
            road: a.road,
            mile1: a.mile,
            timestamp1: a.timestamp,
            mile2: b.mile,
            timestamp2: b.timestamp,
            speed: speed_for_ticket(miles, b.timestamp - a.timestamp),
        }
    } else {
        Ticket {
            plate: a.plate.clone(),
            road: a.road,
            mile1: b.mile,
            timestamp1: b.timestamp,
            mile2: a.mile,
            timestamp2: a.timestamp,
            speed: speed_for_ticket(miles, a.timestamp - b.timestamp),
        }
    }
}

/// Weighs a new sighting against the recorded ones, enters the tickets that
/// it brings into the ledger and returns them.
pub fn weigh(sightings: &Vec<Sighting>, issued: &mut Vec<Ticket>, s: &Sighting, limit: u16) -> (new:
    Vec<Ticket>)
    requires
        sound(ticket_views(old(issued)@)),
    ensures
        ticket_views(new@) == tickets_for(
            sighting_views(sightings@),
            s@,
            limit,
            ticket_views(old(issued)@),
        ),
        ticket_views(final(issued)@) == ticket_views(old(issued)@) + ticket_views(new@),
        sound(ticket_views(final(issued)@)),
{
    let ghost history = sighting_views(sightings@);
    let ghost before = ticket_views(issued@);
    let mut new: Vec<Ticket> = Vec::new();
    let mut i: usize = 0;
    assert(history.take(0) =~= Seq::<SightingView>::empty());
    assert(ticket_views(issued@) =~= before + ticket_views(new@));
    while i < sightings.len()
        invariant
            i <= sightings@.len(),
            history == sighting_views(sightings@),
            ticket_views(new@) == tickets_for(history.take(i as int), s@, limit, before),
            ticket_views(issued@) == before + ticket_views(new@),
            sound(ticket_views(issued@)),
        decreases sightings@.len() - i,
    {
        let h = &sightings[i];
        let ghost so_far = ticket_views(new@);
        proof {
            assert(history.take(i + 1).drop_last() =~= history.take(i as int));
            assert(history.take(i + 1).last() == h@);
        }
        if is_speeding(h, s, limit) {
            let t = ticket_for_pair(h, s);
            if !is_blocked(issued, &t) {
                proof {
                    crate::ledger::lemma_issue_keeps_sound(ticket_views(issued@), t@);
                }
                let copy = t.duplicate();
                issued.push(copy);
                new.push(t);
                proof {
                    assert(ticket_views(new@) =~= so_far.push(t@));
                    assert(ticket_views(issued@) =~= (before + so_far).push(t@));
                    assert(ticket_views(issued@) =~= before + ticket_views(new@));
                }
            }
        }
        i = i + 1;
    }
    assert(history.take(i as int) =~= history);
    new
}

/// The instructions that send `tickets` to `conn`, in order.
pub fn send_all(conn: u64, tickets: Vec<Ticket>) -> (out: Vec<Output>)
    ensures
        output_views(out@) == deliveries(conn, ticket_views(tickets@)),
{
    let ghost all = ticket_views(tickets@);
    let mut out: Vec<Output> = Vec::new();
    let mut i: usize = 0;
    while i < tickets.len()
        invariant
            i <= tickets@.len(),
            all == ticket_views(tickets@),
            output_views(out@) == deliveries(conn, all.take(i as int)),
        decreases tickets@.len() - i,
    {
        let ticket = tickets[i].duplicate();
        let ghost sent = output_views(out@);
        let ghost next = OutputView::Send {
            conn,
            message: crate::codec::MessageView::Ticket { ticket: ticket@ },
        };
        out.push(Output::Send { conn, message: Message::Ticket { ticket } });
        i = i + 1;
        proof {
            assert(output_views(out@) =~= sent.push(next));
            assert(all.take(i as int) =~= all.take(i - 1).push(all[i - 1]));
            assert(deliveries(conn, all.take(i as int)) =~= deliveries(
                conn,
                all.take(i - 1),
            ).push(next));
        }
    }
    assert(all.take(i as int) =~= all);
    out
}

/// Splits the pending tickets into those for one of `roads`, which are due
/// now, and the rest; both keep their order.
pub fn split_pending(pending: &Vec<Ticket>, roads: &Vec<u16>) -> (r: (Vec<Ticket>, Vec<Ticket>))
    ensures
        ticket_views(r.0@) == ticket_views(pending@).filter(
            |t: TicketView| roads@.contains(t.road),
        ),
        ticket_views(r.1@) == ticket_views(pending@).filter(
            |t: TicketView| !roads@.contains(t.road),
        ),
{
    let ghost all = ticket_views(pending@);
    let ghost wanted = |t: TicketView| roads@.contains(t.road);
    let ghost unwanted = |t: TicketView| !roads@.contains(t.road);
    let mut due: Vec<Ticket> = Vec::new();
    let mut rest: Vec<Ticket> = Vec::new();
    let mut i: usize = 0;
    proof {
        assert(all.take(0) =~= Seq::<TicketView>::empty());
        assert(all.take(0).filter(wanted) =~= Seq::<TicketView>::empty());
        assert(all.take(0).filter(unwanted) =~= Seq::<TicketView>::empty());
        assert(ticket_views(due@) =~= Seq::<TicketView>::empty());
        assert(ticket_views(rest@) =~= Seq::<TicketView>::empty());
    }
    while i < pending.len()
        invariant
            i <= pending@.len(),
            all == ticket_views(pending@),
            wanted == |t: TicketView| roads@.contains(t.road),
            unwanted == |t: TicketView| !roads@.contains(t.road),
            ticket_views(due@) == all.take(i as int).filter(wanted),
            ticket_views(rest@) == all.take(i as int).filter(unwanted),
        decreases pending@.len() - i,
    {
        let t = pending[i].duplicate();
        let ghost due_before = ticket_views(due@);
        let ghost rest_before = ticket_views(rest@);
        proof {
            assert(all.take(i + 1) =~= all.take(i as int).push(t@));
            all.take(i as int).lemma_filter_push(t@, wanted);
            all.take(i as int).lemma_filter_push(t@, unwanted);
        }
        if lists_road(roads, t.road) {
            due.push(t);
            assert(ticket_views(due@) =~= due_before.push(t@));
        } else {
            rest.push(t);
            assert(ticket_views(rest@) =~= rest_before.push(t@));
        }
        i = i + 1;
    }
    assert(all.take(i as int) =~= all);
    (due, rest)
}

/// The answer to a violation: an error frame, then the close.
pub fn rejection(conn: u64, v: Violation) -> (out: Vec<Output>)
    ensures
        output_views(out@) == seq![
            OutputView::Send {
                conn,
                message: crate::codec::MessageView::Error {
                    message: crate::connection::violation_text(v),
                },
            },
            OutputView::Close { conn },
        ],
{
    let mut out: Vec<Output> = Vec::new();
    out.push(Output::Send { conn, message: Message::Error { message: v.describe() } });
    out.push(Output::Close { conn });
    assert(output_views(out@) =~= seq![
        OutputView::Send {
            conn,
            message: crate::codec::MessageView::Error {
                message: crate::connection::violation_text(v),
            },
        },
        OutputView::Close { conn },
    ]);
    out
}

/// The answer to a frame that could not be read.
pub fn bad_frame_outputs(conn: u64, error: FrameError) -> (out: Vec<Output>)
    ensures
        output_views(out@) == match error {
            FrameError::UnknownOpcode(_) => seq![
                OutputView::Send {
                    conn,
                    message: MessageView::Error { message: unknown_opcode_text() },
                },
                OutputView::Close { conn },
            ],
            _ => seq![OutputView::Close { conn }],
        },
{
    let mut out: Vec<Output> = Vec::new();
    match error {
        FrameError::UnknownOpcode(_) => {
            let message = "unknown message type".to_owned();
            out.push(Output::Send { conn, message: Message::Error { message } });
            out.push(Output::Close { conn });
            assert(output_views(out@) =~= seq![
                OutputView::Send {
                    conn,
                    message: MessageView::Error { message: unknown_opcode_text() },
                },
                OutputView::Close { conn },
            ]);
        },
        _ => {
            out.push(Output::Close { conn });
            assert(output_views(out@) =~= seq![OutputView::Close { conn }]);
        },
    }
    out
}

/// No instructions.
fn nothing() -> (out: Vec<Output>)
    ensures
        output_views(out@) == Seq::<OutputView>::empty(),
{
    let out: Vec<Output> = Vec::new();
    assert(output_views(out@) =~= Seq::<OutputView>::empty());
    out
}

/// A copy of a list of tickets.
pub fn copy_tickets(tickets: &Vec<Ticket>) -> (out: Vec<Ticket>)
    ensures
        ticket_views(out@) == ticket_views(tickets@),
{
    let mut out: Vec<Ticket> = Vec::new();
    let mut i: usize = 0;
    while i < tickets.len()
        invariant
            i <= tickets@.len(),
            ticket_views(out@) == ticket_views(tickets@).take(i as int),
        decreases tickets@.len() - i,
    {
        let ghost before = ticket_views(out@);
        let t = tickets[i].duplicate();
        out.push(t);
        i = i + 1;
        assert(ticket_views(out@) =~= before.push(t@));
        assert(ticket_views(out@) =~= ticket_views(tickets@).take(i as int));
    }
    assert(ticket_views(tickets@).take(i as int) =~= ticket_views(tickets@));
    out
}

/// The dispatch core.
pub struct Core {
    conns: Registry,
    limits: HashMap<u16, u16>,
    sightings: Vec<Sighting>,
    issued: Vec<Ticket>,
    pending: Vec<Ticket>,
}

impl View for Core {
    type V = CoreView;

    closed spec fn view(&self) -> CoreView {
        CoreView {
            conns: self.conns@,
            limits: self.limits@,
            sightings: sighting_views(self.sightings@),
            issued: ticket_views(self.issued@),
            pending: ticket_views(self.pending@),
        }
    }
}

impl Core {
    /// The core is well formed when its records are and its state is
    /// consistent.
    pub closed spec fn wf(&self) -> bool {
        &&& self.conns.wf()
        &&& consistent(self@)
    }

    /// A well-formed core is consistent.
    pub proof fn lemma_wf_is_consistent(&self)
        requires
            self.wf(),
        ensures
            consistent(self@),
    {
    }

    /// The core before any event.
    pub fn new() -> (core: Core)
        ensures
            core.wf(),
            core@ == initial(),
    {
        let core = Core {
            conns: Registry::new(),
            limits: HashMap::new(),
            sightings: Vec::new(),
            issued: Vec::new(),
            pending: Vec::new(),
        };
        proof {
            assert(core@.sightings =~= Seq::<SightingView>::empty());
            assert(core@.issued =~= Seq::<TicketView>::empty());
            assert(core@.pending =~= Seq::<TicketView>::empty());
        }
        core
    }

    /// The tickets that wait for a dispatcher, oldest first.
    pub fn pending(&self) -> (out: Vec<Ticket>)
        ensures
            ticket_views(out@) == self@.pending,
    {
        copy_tickets(&self.pending)
    }

    /// Every ticket issued so far, in order.
    pub fn issued(&self) -> (out: Vec<Ticket>)
        ensures
            ticket_views(out@) == self@.issued,
    {
        copy_tickets(&self.issued)
    }

    /// The number of sightings on record.
    pub fn sightings_len(&self) -> (n: usize)
        ensures
            n == self@.sightings.len(),
    {
        self.sightings.len()
    }

    /// The limit of `road`, once a camera has set it.
    pub fn limit(&self, road: u16) -> (r: Option<u16>)
        ensures
            r == if self@.limits.contains_key(road) {
                Some(self@.limits[road])
            } else {
                None::<u16>
            },
    {
        broadcast use vstd::std_specs::hash::group_hash_axioms;

        match self.limits.get(&road) {
            Some(l) => Some(*l),
            None => None,
        }
    }

    /// Whether `conn` has a record, that is, is open.
    pub fn is_open(&self, conn: u64) -> (b: bool)
        requires
            self.wf(),
        ensures
            b == self@.conns.contains_key(conn),
    {
        self.conns.contains(conn)
    }

    /// The dispatcher that a ticket for `road` would go to now.
    pub fn dispatcher(&self, road: u16) -> (r: Option<u64>)
        requires
            self.wf(),
        ensures
            r == crate::registry::dispatcher_for(self@.conns, road),
    {
        self.conns.dispatcher(road)
    }

    fn camera_event(&mut self, conn: u64, camera: Camera) -> (out: Vec<Output>)
        requires
            old(self).conns.wf(),
            old(self)@.conns.contains_key(conn),
        ensures
            final(self).conns.wf(),
            (final(self)@, output_views(out@)) == on_camera(old(self)@, conn, camera),
    {
        broadcast use vstd::std_specs::hash::group_hash_axioms;

        let ghost pre = self@;
        match self.conns.take(conn) {
            None => nothing(),
            Some(record) => {
                let mut record = record;
                match record.become_camera(camera) {
                    Ok(()) => {
                        self.conns.put(conn, record);
                        if !self.limits.contains_key(&camera.road) {
                            self.limits.insert(camera.road, camera.limit);
                        }
                        proof {
                            assert(self@.conns =~= pre.conns.insert(conn, record@));
                            assert(self@.limits =~= on_camera(pre, conn, camera).0.limits);
                        }
                        nothing()
                    },
                    Err(v) => rejection(conn, v),
                }
            },
        }
    }

    fn dispatcher_event(&mut self, conn: u64, roads: Vec<u16>) -> (out: Vec<Output>)
        requires
            old(self).conns.wf(),
            old(self)@.conns.contains_key(conn),
        ensures
            final(self).conns.wf(),
            (final(self)@, output_views(out@)) == on_dispatcher(old(self)@, conn, roads@),
    {
        let ghost pre = self@;
        let ghost listed = roads@;
        let (due, rest) = split_pending(&self.pending, &roads);
        match self.conns.take(conn) {
            None => nothing(),
            Some(record) => {
                let mut record = record;
                match record.become_dispatcher(roads) {
                    Ok(()) => {
                        self.conns.put(conn, record);
                        self.pending = rest;
                        proof {
                            assert(self@.conns =~= pre.conns.insert(conn, record@));
                        }
                        send_all(conn, due)
                    },
                    Err(v) => rejection(conn, v),
                }
            },
        }
    }

    fn heartbeat_event(&mut self, conn: u64, interval: u32) -> (out: Vec<Output>)
        requires
            old(self).conns.wf(),
            old(self)@.conns.contains_key(conn),
        ensures
            final(self).conns.wf(),
            (final(self)@, output_views(out@)) == on_heartbeat_request(old(self)@, conn, interval),
    {
        let ghost pre = self@;
        match self.conns.take(conn) {
            None => nothing(),
            Some(record) => {
                let mut record = record;
                match record.arm_heartbeat() {
                    Ok(()) => {
                        self.conns.put(conn, record);
                        proof {
                            assert(self@.conns =~= pre.conns.insert(conn, record@));
                        }
                        let mut out = nothing();
                        if interval != 0 {
                            out.push(Output::StartHeartbeat { conn, interval });
                            assert(output_views(out@) =~= seq![
                                OutputView::StartHeartbeat { conn, interval },
                            ]);
                        }
                        out
                    },
                    Err(v) => rejection(conn, v),
                }
            },
        }
    }

    fn drop_with(&mut self, conn: u64, v: Violation) -> (out: Vec<Output>)
        requires
            old(self).conns.wf(),
        ensures
            final(self).conns.wf(),
            (final(self)@, output_views(out@)) == crate::model::reject(old(self)@, conn, v),
    {
        let _ = self.conns.take(conn);
        rejection(conn, v)
    }

    fn plate_event(&mut self, conn: u64, plate: String, timestamp: u32) -> (out: Vec<Output>)
        requires
            old(self).conns.wf(),
            sound(old(self)@.issued),
            old(self)@.conns.contains_key(conn),
        ensures
            final(self).conns.wf(),
            (final(self)@, output_views(out@)) == on_plate(old(self)@, conn, plate@, timestamp),
    {
        broadcast use vstd::std_specs::hash::group_hash_axioms;

        let ghost pre = self@;
        let reporter = match self.conns.get(conn) {
            None => Err(Violation::NotACamera),
            Some(record) => record.camera(),
        };
        match reporter {
            Err(v) => self.drop_with(conn, v),
            Ok(camera) => {
                if plate.as_str().as_bytes().len() > 255 {
                    return self.drop_with(conn, Violation::PlateTooLong);
                }
                let limit: u16 = match self.limits.get(&camera.road) {
                    Some(l) => *l,
                    None => camera.limit,
                };
                let s = Sighting { plate, road: camera.road, mile: camera.mile, timestamp };
                let new = weigh(&self.sightings, &mut self.issued, &s, limit);
                let ghost fresh = ticket_views(new@);
                let dispatcher = self.conns.dispatcher(camera.road);
                let ghost seen = s@;
                self.sightings.push(s);
                proof {
                    assert(self@.sightings =~= pre.sightings.push(seen));
                }
                match dispatcher {
                    Some(d) => send_all(d, new),
                    None => {
                        let mut new = new;
                        self.pending.append(&mut new);
                        proof {
                            assert(self@.pending =~= pre.pending + fresh);
                        }
                        nothing()
                    },
                }
            },
        }
    }

    /// Takes one event: changes the state and returns the instructions to
    /// carry out, in order.
    pub fn handle(&mut self, event: Event) -> (out: Vec<Output>)
        requires
            old(self).wf(),
        ensures
            final(self).wf(),
            (final(self)@, output_views(out@)) == step(old(self)@, event@),
    {
        let ghost pre = self@;
        proof {
            lemma_step_consistent(pre, event@);
        }
        match event {
            Event::Connected { conn } => {
                self.conns.open(conn);
                nothing()
            },
            Event::Disconnected { conn } => {
                let _ = self.conns.take(conn);
                proof {
                    if !pre.conns.contains_key(conn) {
                        assert(pre.conns.remove(conn) =~= pre.conns);
                    }
                }
                nothing()
            },
            Event::BadFrame { conn, error } => {
                match self.conns.take(conn) {
                    None => {
                        proof {
                            assert(pre.conns.remove(conn) =~= pre.conns);
                        }
                        nothing()
                    },
                    Some(_) => bad_frame_outputs(conn, error),
                }
            },
            Event::IAmCamera { conn, camera } => {
                if self.conns.contains(conn) {
                    self.camera_event(conn, camera)
                } else {
                    nothing()
                }
            },
            Event::IAmDispatcher { conn, roads } => {
                if self.conns.contains(conn) {
                    self.dispatcher_event(conn, roads)
                } else {
                    nothing()
                }
            },
            Event::WantHeartbeat { conn, interval } => {
                if self.conns.contains(conn) {
                    self.heartbeat_event(conn, interval)
                } else {
                    nothing()
                }
            },
            Event::Plate { conn, plate, timestamp } => {
                if self.conns.contains(conn) {
                    self.plate_event(conn, plate, timestamp)
                } else {
                    nothing()
                }
            },
        }
    }
}

} // verus!
