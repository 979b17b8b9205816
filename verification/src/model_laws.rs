//! What holds of the dispatch core whatever events arrive.

use vstd::prelude::*;
use crate::codec::{encodable, MessageView, TicketView};
use crate::connection::{
    identify_dispatcher, lemma_texts_fit, reporting_camera, serves, Camera,
    ConnectionView, Violation,
};
use crate::ledger::{
    chronological, lemma_issue_keeps_sound, lemma_one_ticket_per_plate_and_day, sound, touches,
};
use crate::model::{
    consistent, deliveries, limit_for, on_dispatcher, reject, run, speeding,
    step, subject, ticket_between, tickets_for, CoreView, EventView, OutputView, SightingView,
};
use crate::registry::{dispatcher_for, is_dispatcher_for};
use crate::speed::{distance, rounded_speed};
use crate::wire::text_fits;

verus! {

/// The speed on a ticket is the average speed between its two sightings in
/// hundredths of a mile per hour, rounded to the nearest hundredth, wherever
/// that figure fits the 16-bit field; and the earlier sighting stands first,
/// in whichever order the two arrived.
pub proof fn lemma_ticket_speed(a: SightingView, b: SightingView)
    requires
        a.plate == b.plate,
        a.road == b.road,
        a.timestamp < b.timestamp,
        rounded_speed(distance(a.mile as int, b.mile as int), b.timestamp - a.timestamp) <= 65535,
    ensures
        ticket_between(a, b).speed == rounded_speed(
            distance(a.mile as int, b.mile as int),
            b.timestamp - a.timestamp,
        ),
        ticket_between(a, b) == ticket_between(b, a),
        ticket_between(a, b).mile1 == a.mile,
        ticket_between(a, b).timestamp1 == a.timestamp,
        ticket_between(a, b).mile2 == b.mile,
        ticket_between(a, b).timestamp2 == b.timestamp,
{
    crate::speed::lemma_rounded_speed_is_nearest(
        distance(a.mile as int, b.mile as int),
        b.timestamp - a.timestamp,
    );
}

/// Every ticket that a sighting brings pairs it with a recorded sighting of
/// the same plate on the same road with which it is speeding.
pub proof fn lemma_tickets_come_from_pairs(
    history: Seq<SightingView>,
    s: SightingView,
    limit: u16,
    issued: Seq<TicketView>,
    i: int,
)
    requires
        0 <= i < tickets_for(history, s, limit, issued).len(),
    ensures
        exists|k: int|
            0 <= k < history.len() && speeding(#[trigger] history[k], s, limit) && tickets_for(
                history,
                s,
                limit,
                issued,
            )[i] == ticket_between(history[k], s),
    decreases history.len(),
{
    let earlier = tickets_for(history.drop_last(), s, limit, issued);
    if i < earlier.len() {
        lemma_tickets_come_from_pairs(history.drop_last(), s, limit, issued, i);
        let k = choose|k: int|
            0 <= k < history.drop_last().len() && speeding(
                #[trigger] history.drop_last()[k],
                s,
                limit,
            ) && earlier[i] == ticket_between(history.drop_last()[k], s);
        assert(history[k] == history.drop_last()[k]);
    } else {
        let k = history.len() - 1;
        assert(speeding(history[k], s, limit));
    }
}

/// The tickets that a sighting brings keep a sound ledger sound, and all are
/// chronological tickets for that sighting's plate and road.
pub proof fn lemma_tickets_for_sound(
    history: Seq<SightingView>,
    s: SightingView,
    limit: u16,
    issued: Seq<TicketView>,
)
    requires
        sound(issued),
    ensures
        sound(issued + tickets_for(history, s, limit, issued)),
        forall|i: int|
            0 <= i < tickets_for(history, s, limit, issued).len() ==> {
                let t = #[trigger] tickets_for(history, s, limit, issued)[i];
                t.plate == s.plate && t.road == s.road && chronological(t)
            },
    decreases history.len(),
{
    let new = tickets_for(history, s, limit, issued);
    if history.len() == 0 {
        assert(issued + new =~= issued);
    } else {
        let earlier = tickets_for(history.drop_last(), s, limit, issued);
        lemma_tickets_for_sound(history.drop_last(), s, limit, issued);
        let t = ticket_between(history.last(), s);
        if new != earlier {
            lemma_issue_keeps_sound(issued + earlier, t);
            assert(issued + new =~= (issued + earlier).push(t));
            assert forall|i: int| 0 <= i < new.len() implies {
                let u = #[trigger] new[i];
                u.plate == s.plate && u.road == s.road && chronological(u)
            } by {
                if i < earlier.len() {
                    assert(new[i] == earlier[i]);
                }
            }
        }
    }
}

/// One sighting brings at most one ticket: every ticket for a new sighting
/// touches the day of that sighting, and a day is given away only once.
pub proof fn lemma_at_most_one_ticket_per_sighting(
    history: Seq<SightingView>,
    s: SightingView,
    limit: u16,
    issued: Seq<TicketView>,
)
    requires
        sound(issued),
    ensures
        tickets_for(history, s, limit, issued).len() <= 1,
{
    let new = tickets_for(history, s, limit, issued);
    if new.len() >= 2 {
        lemma_tickets_for_sound(history, s, limit, issued);
        lemma_tickets_come_from_pairs(history, s, limit, issued, 0);
        lemma_tickets_come_from_pairs(history, s, limit, issued, 1);
        let all = issued + new;
        let n = issued.len() as int;
        let day = crate::ledger::day_of(s.timestamp as int);
        assert(all[n] == new[0]);
        assert(all[n + 1] == new[1]);
        assert(chronological(new[0]) && chronological(new[1]));
        assert(touches(all[n], day));
        assert(touches(all[n + 1], day));
        lemma_one_ticket_per_plate_and_day(all, n, n + 1, day);
    }
}

/// Where no dispatcher serves a road, none does after a change that brings
/// no new dispatcher for it.
pub proof fn lemma_still_no_dispatcher(
    before: Map<u64, ConnectionView>,
    after: Map<u64, ConnectionView>,
    road: u16,
)
    requires
        dispatcher_for(before, road) is None,
        forall|c: u64| #[trigger]
            is_dispatcher_for(after, c, road) ==> is_dispatcher_for(before, c, road),
    ensures
        dispatcher_for(after, road) is None,
{
}

proof fn lemma_pending_kept(pre: CoreView, conns: Map<u64, ConnectionView>)
    requires
        consistent(pre),
        forall|c: u64, road: u16| #[trigger]
            is_dispatcher_for(conns, c, road) ==> is_dispatcher_for(pre.conns, c, road),
    ensures
        consistent(CoreView { conns, ..pre }),
{
    let post = CoreView { conns, ..pre };
    assert forall|i: int| 0 <= i < post.pending.len() implies text_fits(
        (#[trigger] post.pending[i]).plate,
    ) && dispatcher_for(post.conns, post.pending[i].road) is None by {
        lemma_still_no_dispatcher(pre.conns, conns, pre.pending[i].road);
    }
}

proof fn lemma_plate_consistent(pre: CoreView, conn: u64, plate: Seq<char>, timestamp: u32)
    requires
        consistent(pre),
        pre.conns.contains_key(conn),
        reporting_camera(pre.conns[conn]) is Ok,
        text_fits(plate),
    ensures
        consistent(step(pre, EventView::Plate { conn, plate, timestamp }).0),
{
    let camera = reporting_camera(pre.conns[conn])->Ok_0;
    let s = SightingView { plate, road: camera.road, mile: camera.mile, timestamp };
    let new = tickets_for(pre.sightings, s, limit_for(pre.limits, camera), pre.issued);
    let post = step(pre, EventView::Plate { conn, plate, timestamp }).0;
    lemma_tickets_for_sound(pre.sightings, s, limit_for(pre.limits, camera), pre.issued);
    assert(post.issued == pre.issued + new);
    assert forall|i: int| 0 <= i < post.sightings.len() implies text_fits(
        (#[trigger] post.sightings[i]).plate,
    ) by {
        if i < pre.sightings.len() {
            assert(post.sightings[i] == pre.sightings[i]);
        }
    }
    assert forall|i: int| 0 <= i < post.issued.len() implies text_fits(
        (#[trigger] post.issued[i]).plate,
    ) by {
        if i < pre.issued.len() {
            assert(post.issued[i] == pre.issued[i]);
        } else {
            assert(post.issued[i] == new[i - pre.issued.len()]);
        }
    }
    assert forall|i: int| 0 <= i < post.pending.len() implies text_fits(
        (#[trigger] post.pending[i]).plate,
    ) && dispatcher_for(post.conns, post.pending[i].road) is None by {
        if i < pre.pending.len() {
            assert(post.pending[i] == pre.pending[i]);
        } else {
            assert(post.pending[i] == new[i - pre.pending.len()]);
        }
    }
}

proof fn lemma_dispatcher_consistent(pre: CoreView, conn: u64, roads: Seq<u16>)
    requires
        consistent(pre),
        pre.conns.contains_key(conn),
        identify_dispatcher(pre.conns[conn], roads) is Ok,
    ensures
        consistent(on_dispatcher(pre, conn, roads).0),
{
    let post = on_dispatcher(pre, conn, roads).0;
    let unwanted = |t: TicketView| !roads.contains(t.road);
    assert forall|i: int| 0 <= i < post.pending.len() implies text_fits(
        (#[trigger] post.pending[i]).plate,
    ) && dispatcher_for(post.conns, post.pending[i].road) is None by {
        let t = post.pending[i];
        pre.pending.lemma_filter_pred(unwanted, i);
        assert(pre.pending.filter(unwanted).contains(t));
        pre.pending.lemma_filter_contains_rev(unwanted, t);
        let j = choose|j: int| 0 <= j < pre.pending.len() && pre.pending[j] == t;
        assert(text_fits(pre.pending[j].plate));
        assert forall|c: u64| #[trigger]
            is_dispatcher_for(post.conns, c, t.road) implies is_dispatcher_for(
            pre.conns,
            c,
            t.road,
        ) by {}
        lemma_still_no_dispatcher(pre.conns, post.conns, t.road);
    }
}

/// Every event leaves a consistent core consistent.
pub proof fn lemma_step_consistent(pre: CoreView, event: EventView)
    requires
        consistent(pre),
    ensures
        consistent(step(pre, event).0),
{
    let post = step(pre, event).0;
    let conn = subject(event);
    match event {
        EventView::Connected { conn } => {
            lemma_pending_kept(pre, post.conns);
        },
        _ => if pre.conns.contains_key(conn) {
            match event {
                EventView::IAmDispatcher { conn, roads } => {
                    if identify_dispatcher(pre.conns[conn], roads) is Ok {
                        lemma_dispatcher_consistent(pre, conn, roads);
                    } else {
                        lemma_pending_kept(pre, post.conns);
                    }
                },
                EventView::Plate { conn, plate, timestamp } => {
                    if reporting_camera(pre.conns[conn]) is Ok && text_fits(plate) {
                        lemma_plate_consistent(pre, conn, plate, timestamp);
                    } else {
                        lemma_pending_kept(pre, post.conns);
                    }
                },
                EventView::IAmCamera { conn, camera } => {
                    lemma_pending_kept(pre, post.conns);
                    assert(consistent(CoreView { conns: post.conns, ..pre }));
                },
                _ => {
                    lemma_pending_kept(pre, post.conns);
                },
            }
        },
    }
}

/// The core is consistent after any run of events.
pub proof fn lemma_run_consistent(events: Seq<EventView>)
    ensures
        consistent(run(events)),
    decreases events.len(),
{
    if events.len() > 0 {
        lemma_run_consistent(events.drop_last());
        lemma_step_consistent(run(events.drop_last()), events.last());
    }
}

/// No plate ever gets two tickets for one day: after any run of events, of
/// all tickets issued for a plate at most one touches any given day.
pub proof fn lemma_one_ticket_per_day(events: Seq<EventView>, i: int, j: int, day: int)
    requires
        0 <= i < run(events).issued.len(),
        0 <= j < run(events).issued.len(),
        run(events).issued[i].plate == run(events).issued[j].plate,
        touches(run(events).issued[i], day),
        touches(run(events).issued[j], day),
    ensures
        i == j,
{
    lemma_run_consistent(events);
    lemma_one_ticket_per_plate_and_day(run(events).issued, i, j, day);
}

/// Nothing is ever taken back: the sightings and the ledger before an event
/// are the beginning of those after it.
pub proof fn lemma_history_grows(pre: CoreView, event: EventView)
    ensures
        pre.sightings.is_prefix_of(step(pre, event).0.sightings),
        pre.issued.is_prefix_of(step(pre, event).0.issued),
{
    let post = step(pre, event).0;
    assert(pre.sightings =~= post.sightings.subrange(0, pre.sightings.len() as int));
    assert(pre.issued =~= post.issued.subrange(0, pre.issued.len() as int));
}

/// Every ticket newly in the ledger after an event is either sent to a
/// dispatcher by that event or waits in the queue.
pub proof fn lemma_new_tickets_are_routed(pre: CoreView, event: EventView)
    ensures
        ({
            let (post, outputs) = step(pre, event);
            let new = post.issued.subrange(pre.issued.len() as int, post.issued.len() as int);
            ||| new.len() == 0
            ||| post.pending == pre.pending + new && outputs.len() == 0
            ||| exists|dispatcher: u64| outputs == deliveries(dispatcher, new)
        }),
{
    let (post, outputs) = step(pre, event);
    lemma_history_grows(pre, event);
    let new = post.issued.subrange(pre.issued.len() as int, post.issued.len() as int);
    if post.issued.len() > pre.issued.len() {
        match event {
            EventView::Plate { conn, plate, timestamp } => {
                let camera = reporting_camera(pre.conns[conn])->Ok_0;
                let s = SightingView { plate, road: camera.road, mile: camera.mile, timestamp };
                let fresh = tickets_for(
                    pre.sightings,
                    s,
                    limit_for(pre.limits, camera),
                    pre.issued,
                );
                assert(new =~= fresh);
                match dispatcher_for(pre.conns, camera.road) {
                    Some(dispatcher) => {
                        assert(outputs == deliveries(dispatcher, new));
                    },
                    None => {},
                }
            },
            _ => {},
        }
    }
}

proof fn lemma_partition_len(s: Seq<TicketView>, roads: Seq<u16>)
    ensures
        s.filter(|t: TicketView| roads.contains(t.road)).len() + s.filter(
            |t: TicketView| !roads.contains(t.road),
        ).len() == s.len(),
    decreases s.len(),
{
    let wanted = |t: TicketView| roads.contains(t.road);
    let unwanted = |t: TicketView| !roads.contains(t.road);
    if s.len() == 0 {
        assert(s.filter(wanted) =~= s) by {
            reveal(Seq::filter);
        }
        assert(s.filter(unwanted) =~= s) by {
            reveal(Seq::filter);
        }
    } else {
        lemma_partition_len(s.drop_last(), roads);
        assert(s =~= s.drop_last().push(s.last()));
        s.drop_last().lemma_filter_push(s.last(), wanted);
        s.drop_last().lemma_filter_push(s.last(), unwanted);
    }
}

/// When a connection becomes a dispatcher, every ticket that waits for one
/// of its roads is sent to it at once, oldest first, and leaves the queue:
/// each waiting ticket is either sent now or still waits, none is both, and
/// none that still waits is for a road of the new dispatcher.
pub proof fn lemma_registration_drains_queue(pre: CoreView, conn: u64, roads: Seq<u16>)
    requires
        pre.conns.contains_key(conn),
        pre.conns[conn].role is Unidentified,
    ensures
        ({
            let (post, outputs) = step(pre, EventView::IAmDispatcher { conn, roads });
            &&& outputs == deliveries(
                conn,
                pre.pending.filter(|t: TicketView| roads.contains(t.road)),
            )
            &&& post.pending == pre.pending.filter(|t: TicketView| !roads.contains(t.road))
            &&& outputs.len() + post.pending.len() == pre.pending.len()
            &&& forall|k: int|
                0 <= k < post.pending.len() ==> !roads.contains((#[trigger] post.pending[k]).road)
            &&& forall|k: int|
                0 <= k < outputs.len() ==> (#[trigger] outputs[k] matches OutputView::Send {
                    conn: to,
                    message: MessageView::Ticket { ticket },
                } && to == conn && roads.contains(ticket.road))
        }),
{
    let (post, outputs) = step(pre, EventView::IAmDispatcher { conn, roads });
    let wanted = |t: TicketView| roads.contains(t.road);
    let unwanted = |t: TicketView| !roads.contains(t.road);
    lemma_partition_len(pre.pending, roads);
    assert forall|k: int| 0 <= k < post.pending.len() implies !roads.contains(
        (#[trigger] post.pending[k]).road,
    ) by {
        pre.pending.lemma_filter_pred(unwanted, k);
    }
    assert forall|k: int| 0 <= k < outputs.len() implies (#[trigger] outputs[k] matches OutputView::Send {
        conn: to,
        message: MessageView::Ticket { ticket },
    } && to == conn && roads.contains(ticket.road)) by {
        pre.pending.lemma_filter_pred(wanted, k);
    }
}

/// While a dispatcher serves a road, no ticket for that road waits: after
/// any run of events, a ticket in the queue has no dispatcher to go to.
pub proof fn lemma_nothing_waits_for_a_present_dispatcher(events: Seq<EventView>, k: int)
    requires
        0 <= k < run(events).pending.len(),
    ensures
        dispatcher_for(run(events).conns, run(events).pending[k].road) is None,
{
    lemma_run_consistent(events);
}

/// Naming a role on a connection that has one is answered with an error
/// frame and the close, and the connection's record is dropped.
pub proof fn lemma_second_identification_is_rejected(
    pre: CoreView,
    conn: u64,
    camera: Camera,
    roads: Seq<u16>,
)
    requires
        pre.conns.contains_key(conn),
        !(pre.conns[conn].role is Unidentified),
    ensures
        step(pre, EventView::IAmCamera { conn, camera }) == reject(
            pre,
            conn,
            Violation::AlreadyIdentified,
        ),
        step(pre, EventView::IAmDispatcher { conn, roads }) == reject(
            pre,
            conn,
            Violation::AlreadyIdentified,
        ),
        reject(pre, conn, Violation::AlreadyIdentified).1.len() == 2,
        reject(pre, conn, Violation::AlreadyIdentified).1[0] is Send,
        reject(pre, conn, Violation::AlreadyIdentified).1[1] == (OutputView::Close { conn }),
        !reject(pre, conn, Violation::AlreadyIdentified).0.conns.contains_key(conn),
{
}

/// A plate from a connection that is no camera is answered with an error
/// frame and the close, and nothing is recorded.
pub proof fn lemma_plate_from_non_camera_is_rejected(
    pre: CoreView,
    conn: u64,
    plate: Seq<char>,
    timestamp: u32,
)
    requires
        pre.conns.contains_key(conn),
        !(pre.conns[conn].role is Camera),
    ensures
        step(pre, EventView::Plate { conn, plate, timestamp }) == reject(
            pre,
            conn,
            Violation::NotACamera,
        ),
        reject(pre, conn, Violation::NotACamera).0.sightings == pre.sightings,
        reject(pre, conn, Violation::NotACamera).0.issued == pre.issued,
{
}

/// After a connection is closed, nothing more happens on its behalf: until
/// it connects anew, its events change nothing and bring no instruction.
pub proof fn lemma_closed_connection_is_ignored(pre: CoreView, event: EventView)
    requires
        !pre.conns.contains_key(subject(event)),
        !(event is Connected),
    ensures
        step(pre, event) == (pre, Seq::<OutputView>::empty()),
{
}

/// A disconnect takes only the connection's record: sightings, ledger,
/// limits and waiting tickets stay as they were.
pub proof fn lemma_disconnect_keeps_history(pre: CoreView, conn: u64)
    ensures
        ({
            let (post, outputs) = step(pre, EventView::Disconnected { conn });
            &&& post.sightings == pre.sightings
            &&& post.issued == pre.issued
            &&& post.limits == pre.limits
            &&& post.pending == pre.pending
            &&& post.conns == pre.conns.remove(conn)
            &&& outputs.len() == 0
        }),
{
    let (post, outputs) = step(pre, EventView::Disconnected { conn });
    if !pre.conns.contains_key(conn) {
        assert(pre.conns.remove(conn) =~= pre.conns);
    }
}

/// Every frame that the core asks to send can be framed.
pub proof fn lemma_outputs_can_be_framed(pre: CoreView, event: EventView, k: int)
    requires
        consistent(pre),
        0 <= k < step(pre, event).1.len(),
        step(pre, event).1[k] is Send,
    ensures
        encodable(step(pre, event).1[k]->message),
{
    let (post, outputs) = step(pre, event);
    lemma_texts_fit(Violation::AlreadyIdentified);
    lemma_texts_fit(Violation::NotACamera);
    lemma_texts_fit(Violation::HeartbeatAlreadyRequested);
    lemma_texts_fit(Violation::PlateTooLong);
    match event {
        EventView::IAmDispatcher { conn, roads } => {
            if pre.conns.contains_key(conn) && identify_dispatcher(pre.conns[conn], roads) is Ok {
                let wanted = |t: TicketView| roads.contains(t.road);
                let t = pre.pending.filter(wanted)[k];
                assert(pre.pending.filter(wanted).contains(t));
                pre.pending.lemma_filter_contains_rev(wanted, t);
                let j = choose|j: int| 0 <= j < pre.pending.len() && pre.pending[j] == t;
                assert(text_fits(pre.pending[j].plate));
            }
        },
        EventView::Plate { conn, plate, timestamp } => {
            if pre.conns.contains_key(conn) && reporting_camera(pre.conns[conn]) is Ok
                && text_fits(plate) {
                let camera = reporting_camera(pre.conns[conn])->Ok_0;
                let s = SightingView { plate, road: camera.road, mile: camera.mile, timestamp };
                lemma_tickets_for_sound(
                    pre.sightings,
                    s,
                    limit_for(pre.limits, camera),
                    pre.issued,
                );
                let new = tickets_for(
                    pre.sightings,
                    s,
                    limit_for(pre.limits, camera),
                    pre.issued,
                );
                assert(new[k].plate == plate);
            }
        },
        _ => {},
    }
}

} // verus!
