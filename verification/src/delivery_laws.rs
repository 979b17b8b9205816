//! Every ticket is delivered once: what holds of the tickets that the core
//! sends over a whole run of events.

use vstd::prelude::*;
use vstd::seq_lib::{lemma_multiset_commutative, to_multiset_build};
use crate::codec::{MessageView, TicketView};
use crate::connection::{identify_dispatcher, reporting_camera};
use crate::ledger::{chronological, overlap, sound};
use crate::model::{
    deliveries, limit_for, run, step, tickets_for, CoreView, EventView, OutputView,
    SightingView,
};
use crate::model_laws::{lemma_run_consistent};
use crate::registry::dispatcher_for;
use crate::wire::text_fits;

verus! {

/// Whether an instruction sends a ticket.
pub open spec fn sends_ticket(o: OutputView) -> bool {
    o matches OutputView::Send { message: MessageView::Ticket { .. }, .. }
}

/// The tickets that a list of instructions sends, in order.
pub open spec fn tickets_in(outputs: Seq<OutputView>) -> Seq<TicketView>
    decreases outputs.len(),
{
    if outputs.len() == 0 {
        Seq::<TicketView>::empty()
    } else {
        let before = tickets_in(outputs.drop_last());
        match outputs.last() {
            OutputView::Send { message: MessageView::Ticket { ticket }, .. } => before.push(
                ticket,
            ),
            _ => before,
        }
    }
}

/// The tickets sent over a run of events from the start, in order.
pub open spec fn sent_during(events: Seq<EventView>) -> Seq<TicketView>
    decreases events.len(),
{
    if events.len() == 0 {
        Seq::<TicketView>::empty()
    } else {
        sent_during(events.drop_last()) + tickets_in(
            step(run(events.drop_last()), events.last()).1,
        )
    }
}

proof fn lemma_tickets_in_deliveries(conn: u64, tickets: Seq<TicketView>)
    ensures
        tickets_in(deliveries(conn, tickets)) == tickets,
    decreases tickets.len(),
{
    if tickets.len() > 0 {
        lemma_tickets_in_deliveries(conn, tickets.drop_last());
        assert(deliveries(conn, tickets).drop_last() =~= deliveries(conn, tickets.drop_last()));
        assert(tickets_in(deliveries(conn, tickets)) =~= tickets);
    } else {
        assert(tickets_in(deliveries(conn, tickets)) =~= tickets);
    }
}

proof fn lemma_tickets_in_none(outputs: Seq<OutputView>)
    requires
        forall|k: int| 0 <= k < outputs.len() ==> !sends_ticket(#[trigger] outputs[k]),
    ensures
        tickets_in(outputs) == Seq::<TicketView>::empty(),
    decreases outputs.len(),
{
    if outputs.len() > 0 {
        assert(!sends_ticket(outputs[outputs.len() - 1]));
        assert forall|k: int| 0 <= k < outputs.drop_last().len() implies !sends_ticket(
            #[trigger] outputs.drop_last()[k],
        ) by {
            assert(outputs.drop_last()[k] == outputs[k]);
        }
        lemma_tickets_in_none(outputs.drop_last());
    }
}

proof fn lemma_partition_multiset(s: Seq<TicketView>, roads: Seq<u16>)
    ensures
        s.filter(|t: TicketView| roads.contains(t.road)).to_multiset().add(
            s.filter(|t: TicketView| !roads.contains(t.road)).to_multiset(),
        ) == s.to_multiset(),
    decreases s.len(),
{
    let wanted = |t: TicketView| roads.contains(t.road);
    let unwanted = |t: TicketView| !roads.contains(t.road);
    if s.len() == 0 {
        assert(s.filter(wanted) =~= Seq::<TicketView>::empty()) by {
            reveal(Seq::filter);
        }
        assert(s.filter(unwanted) =~= Seq::<TicketView>::empty()) by {
            reveal(Seq::filter);
        }
        assert(s =~= Seq::<TicketView>::empty());
        assert(s.filter(wanted).to_multiset().add(s.filter(unwanted).to_multiset())
            =~= s.to_multiset()) by {
            broadcast use vstd::seq_lib::group_to_multiset_ensures;
            broadcast use vstd::multiset::group_multiset_axioms;

        }
    } else {
        let front = s.drop_last();
        let last = s.last();
        lemma_partition_multiset(front, roads);
        assert(s =~= front.push(last));
        front.lemma_filter_push(last, wanted);
        front.lemma_filter_push(last, unwanted);
        to_multiset_build(front, last);
        to_multiset_build(front.filter(wanted), last);
        to_multiset_build(front.filter(unwanted), last);
        assert(s.filter(wanted).to_multiset().add(s.filter(unwanted).to_multiset())
            =~= s.to_multiset()) by {
            broadcast use vstd::multiset::group_multiset_axioms;

        }
    }
}

/// The account of one event: the tickets in the ledger after it are those
/// that were sent before, those that it sends, and those that wait after it.
pub proof fn lemma_step_accounts(pre: CoreView, event: EventView, sent: Seq<TicketView>)
    requires
        sent.to_multiset().add(pre.pending.to_multiset()) == pre.issued.to_multiset(),
    ensures
        (sent + tickets_in(step(pre, event).1)).to_multiset().add(
            step(pre, event).0.pending.to_multiset(),
        ) == step(pre, event).0.issued.to_multiset(),
{
    broadcast use vstd::multiset::group_multiset_axioms;

    let (post, outputs) = step(pre, event);
    let now = tickets_in(outputs);
    lemma_multiset_commutative(sent, now);
    let conn = crate::model::subject(event);
    let handled = event is Connected || pre.conns.contains_key(conn);
    match event {
        EventView::IAmDispatcher { conn, roads } => {
            if handled && identify_dispatcher(pre.conns[conn], roads) is Ok {
                let due = pre.pending.filter(|t: TicketView| roads.contains(t.road));
                lemma_tickets_in_deliveries(conn, due);
                lemma_partition_multiset(pre.pending, roads);
                assert(now == due);
                assert((sent + now).to_multiset().add(post.pending.to_multiset())
                    =~= post.issued.to_multiset());
            } else {
                lemma_tickets_in_none(outputs);
                assert(sent + now =~= sent);
            }
        },
        EventView::Plate { conn, plate, timestamp } => {
            if handled && reporting_camera(pre.conns[conn]) is Ok && text_fits(plate) {
                let camera = reporting_camera(pre.conns[conn])->Ok_0;
                let s = SightingView { plate, road: camera.road, mile: camera.mile, timestamp };
                let new = tickets_for(
                    pre.sightings,
                    s,
                    limit_for(pre.limits, camera),
                    pre.issued,
                );
                lemma_multiset_commutative(pre.issued, new);
                match dispatcher_for(pre.conns, camera.road) {
                    Some(d) => {
                        lemma_tickets_in_deliveries(d, new);
                        assert(now == new);
                    },
                    None => {
                        lemma_tickets_in_none(outputs);
                        lemma_multiset_commutative(pre.pending, new);
                        assert(sent + now =~= sent);
                    },
                }
                assert((sent + now).to_multiset().add(post.pending.to_multiset())
                    =~= post.issued.to_multiset());
            } else {
                lemma_tickets_in_none(outputs);
                assert(sent + now =~= sent);
            }
        },
        _ => {
            lemma_tickets_in_none(outputs);
            assert(sent + now =~= sent);
        },
    }
}

/// After any run of events, every ticket of the ledger was either sent to a
/// dispatcher or waits for one, and none is both or counted twice: the
/// tickets sent and the tickets waiting are together exactly those issued.
pub proof fn lemma_every_ticket_is_sent_or_waits(events: Seq<EventView>)
    ensures
        sent_during(events).to_multiset().add(run(events).pending.to_multiset()) == run(
            events,
        ).issued.to_multiset(),
    decreases events.len(),
{
    broadcast use vstd::multiset::group_multiset_axioms;

    if events.len() == 0 {
        let none = Seq::<TicketView>::empty();
        assert(sent_during(events) =~= none);
        assert(run(events).pending =~= none);
        assert(run(events).issued =~= none);
        assert(none.to_multiset().add(none.to_multiset()) =~= none.to_multiset()) by {
            broadcast use vstd::seq_lib::group_to_multiset_ensures;

        }
    } else {
        lemma_every_ticket_is_sent_or_waits(events.drop_last());
        lemma_step_accounts(
            run(events.drop_last()),
            events.last(),
            sent_during(events.drop_last()),
        );
    }
}

/// A sound ledger holds no ticket twice.
pub proof fn lemma_sound_has_no_duplicates(issued: Seq<TicketView>)
    requires
        sound(issued),
    ensures
        issued.no_duplicates(),
{
    assert forall|i: int, j: int|
        0 <= i < issued.len() && 0 <= j < issued.len() && i != j implies issued[i]
        != issued[j] by {
        assert(chronological(issued[i]) && chronological(issued[j]));
        if i < j {
            assert(!overlap(issued[i], issued[j]));
        } else {
            assert(!overlap(issued[j], issued[i]));
        }
    }
}

/// No ticket is ever sent twice: over any run of events, the tickets sent
/// are all different.
pub proof fn lemma_no_ticket_is_sent_twice(events: Seq<EventView>, i: int, j: int)
    requires
        0 <= i < sent_during(events).len(),
        0 <= j < sent_during(events).len(),
        sent_during(events)[i] == sent_during(events)[j],
    ensures
        i == j,
{
    broadcast use vstd::multiset::group_multiset_axioms;

    let sent = sent_during(events);
    let issued = run(events).issued;
    lemma_run_consistent(events);
    lemma_sound_has_no_duplicates(issued);
    lemma_every_ticket_is_sent_or_waits(events);
    issued.lemma_multiset_has_no_duplicates();
    assert forall|x: TicketView| sent.to_multiset().contains(x) implies sent.to_multiset().count(
        x,
    ) == 1 by {
        assert(issued.to_multiset().count(x) == sent.to_multiset().count(x) + run(
            events,
        ).pending.to_multiset().count(x));
        assert(issued.to_multiset().contains(x));
    }
    sent.lemma_multiset_has_no_duplicates_conv();
}

/// A ticket that was sent does not wait any more, and a ticket that waits
/// was not sent yet.
pub proof fn lemma_sent_tickets_do_not_wait(events: Seq<EventView>, i: int, k: int)
    requires
        0 <= i < sent_during(events).len(),
        0 <= k < run(events).pending.len(),
    ensures
        sent_during(events)[i] != run(events).pending[k],
{
    broadcast use vstd::multiset::group_multiset_axioms;
    broadcast use vstd::seq_lib::group_to_multiset_ensures;

    let sent = sent_during(events);
    let pending = run(events).pending;
    let issued = run(events).issued;
    lemma_run_consistent(events);
    lemma_sound_has_no_duplicates(issued);
    lemma_every_ticket_is_sent_or_waits(events);
    issued.lemma_multiset_has_no_duplicates();
    let x = sent[i];
    assert(sent.contains(x));
    assert(sent.to_multiset().count(x) > 0);
    if x == pending[k] {
        assert(pending.contains(x));
        assert(pending.to_multiset().count(x) > 0);
        assert(issued.to_multiset().count(x) == sent.to_multiset().count(x)
            + pending.to_multiset().count(x));
        assert(issued.to_multiset().contains(x));
    }
}

} // verus!
