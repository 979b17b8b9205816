//! The ticket ledger: which days of which plate are taken.
//!
//! The ledger is the list of tickets issued so far.  A ticket takes every
//! calendar day from the day of its first sighting to the day of its second,
//! for its plate.  A new ticket is issued only if none of its days is taken.

use vstd::prelude::*;
use crate::codec::{Ticket, TicketView};

verus! {

pub const SECONDS_PER_DAY: u32 = 86400;

/// The calendar day that a timestamp falls on.
pub open spec fn day_of(timestamp: int) -> int {
    timestamp / 86400
}

/// The calendar day that a timestamp falls on.
pub fn day(timestamp: u32) -> (d: u32)
    ensures
        d == day_of(timestamp as int),
{
    timestamp / SECONDS_PER_DAY
}

/// The first sighting of a ticket is strictly the earlier one.
pub open spec fn chronological(t: TicketView) -> bool {
    t.timestamp1 < t.timestamp2
}

/// Whether the span of `t` includes `day`.
pub open spec fn touches(t: TicketView, day: int) -> bool {
    day_of(t.timestamp1 as int) <= day <= day_of(t.timestamp2 as int)
}

/// Whether `t` takes `day` for `plate`.
pub open spec fn takes(t: TicketView, plate: Seq<char>, day: int) -> bool {
    t.plate == plate && touches(t, day)
}

/// Whether `(plate, day)` is in the ledger.
pub open spec fn marked(issued: Seq<TicketView>, plate: Seq<char>, day: int) -> bool {
    exists|i: int| 0 <= i < issued.len() && takes(#[trigger] issued[i], plate, day)
}

/// Whether some day of `t` is already in the ledger for its plate.
pub open spec fn blocked(issued: Seq<TicketView>, t: TicketView) -> bool {
    exists|day: int| #[trigger] touches(t, day) && marked(issued, t.plate, day)
}

/// Whether two tickets are for one plate and share a day.
pub open spec fn overlap(a: TicketView, b: TicketView) -> bool {
    &&& a.plate == b.plate
    &&& day_of(a.timestamp1 as int) <= day_of(b.timestamp2 as int)
    &&& day_of(b.timestamp1 as int) <= day_of(a.timestamp2 as int)
}

/// A ledger is sound when every ticket in it is chronological and no two of
/// them are for one plate and share a day.
pub open spec fn sound(issued: Seq<TicketView>) -> bool {
    &&& forall|i: int| 0 <= i < issued.len() ==> chronological(#[trigger] issued[i])
    &&& forall|i: int, j: int|
        0 <= i < j < issued.len() ==> !overlap(#[trigger] issued[i], #[trigger] issued[j])
}

/// The contents of a list of tickets.
pub open spec fn ticket_views(tickets: Seq<Ticket>) -> Seq<TicketView> {
    tickets.map_values(|t: Ticket| t@)
}

/// Two chronological tickets overlap exactly when some day is in both spans.
pub proof fn lemma_overlap_shares_day(a: TicketView, b: TicketView)
    requires
        chronological(a),
        chronological(b),
        a.plate == b.plate,
    ensures
        overlap(a, b) <==> exists|day: int| #[trigger] touches(a, day) && touches(b, day),
{
    if overlap(a, b) {
        let d1 = day_of(a.timestamp1 as int);
        let d2 = day_of(b.timestamp1 as int);
        let day = if d1 <= d2 {
            d2
        } else {
            d1
        };
        assert(touches(a, day) && touches(b, day));
    }
}

/// A chronological ticket is blocked exactly when it overlaps a ticket of
/// the ledger.
pub proof fn lemma_blocked_is_overlap(issued: Seq<TicketView>, t: TicketView)
    requires
        chronological(t),
        forall|i: int| 0 <= i < issued.len() ==> chronological(#[trigger] issued[i]),
    ensures
        blocked(issued, t) <==> exists|i: int|
            0 <= i < issued.len() && overlap(#[trigger] issued[i], t),
{
    if blocked(issued, t) {
        let day = choose|day: int| #[trigger] touches(t, day) && marked(issued, t.plate, day);
        let i = choose|i: int| 0 <= i < issued.len() && takes(#[trigger] issued[i], t.plate, day);
        assert(overlap(issued[i], t));
    }
    if exists|i: int| 0 <= i < issued.len() && overlap(#[trigger] issued[i], t) {
        let i = choose|i: int| 0 <= i < issued.len() && overlap(#[trigger] issued[i], t);
        lemma_overlap_shares_day(issued[i], t);
        let day = choose|day: int| #[trigger] touches(issued[i], day) && touches(t, day);
        assert(takes(issued[i], t.plate, day));
        assert(touches(t, day) && marked(issued, t.plate, day));
    }
}

/// Issuing a chronological ticket that is not blocked keeps the ledger sound.
pub proof fn lemma_issue_keeps_sound(issued: Seq<TicketView>, t: TicketView)
    requires
        sound(issued),
        chronological(t),
        !blocked(issued, t),
    ensures
        sound(issued.push(t)),
{
    lemma_blocked_is_overlap(issued, t);
    let after = issued.push(t);
    assert forall|i: int, j: int| 0 <= i < j < after.len() implies !overlap(
        #[trigger] after[i],
        #[trigger] after[j],
    ) by {
        if j == issued.len() {
            assert(after[i] == issued[i]);
            assert(!overlap(issued[i], t));
        } else {
            assert(after[i] == issued[i] && after[j] == issued[j]);
        }
    }
    assert forall|i: int| 0 <= i < after.len() implies chronological(#[trigger] after[i]) by {
        if i < issued.len() {
            assert(after[i] == issued[i]);
        }
    }
}

/// In a sound ledger no plate has two tickets on one day: of all tickets for
/// a plate, at most one touches any given day.
pub proof fn lemma_one_ticket_per_plate_and_day(
    issued: Seq<TicketView>,
    i: int,
    j: int,
    day: int,
)
    requires
        sound(issued),
        0 <= i < issued.len(),
        0 <= j < issued.len(),
        issued[i].plate == issued[j].plate,
        touches(issued[i], day),
        touches(issued[j], day),
    ensures
        i == j,
{
    if i < j {
        assert(!overlap(issued[i], issued[j]));
    } else if j < i {
        assert(!overlap(issued[j], issued[i]));
    }
}

/// Once a ticket is in a sound ledger, every day of its span is marked for
/// its plate, and any later candidate for that plate touching such a day is
/// blocked.
pub proof fn lemma_issued_days_are_marked(issued: Seq<TicketView>, i: int, day: int)
    requires
        0 <= i < issued.len(),
        touches(issued[i], day),
    ensures
        marked(issued, issued[i].plate, day),
{
    assert(takes(issued[i], issued[i].plate, day));
}

/// Whether `t` overlaps a ticket of the ledger.
pub fn is_blocked(issued: &Vec<Ticket>, t: &Ticket) -> (b: bool)
    requires
        chronological(t@),
        forall|i: int|
            0 <= i < issued@.len() ==> chronological(#[trigger] ticket_views(issued@)[i]),
    ensures
        b == blocked(ticket_views(issued@), t@),
{
    let ghost views = ticket_views(issued@);
    let first: u32 = day(t.timestamp1);
    let last: u32 = day(t.timestamp2);
    let mut i: usize = 0;
    while i < issued.len()
        invariant
            i <= issued@.len(),
            views == ticket_views(issued@),
            chronological(t@),
            forall|k: int| 0 <= k < views.len() ==> chronological(#[trigger] views[k]),
            first == day_of(t@.timestamp1 as int),
            last == day_of(t@.timestamp2 as int),
            forall|k: int| 0 <= k < i ==> !overlap(#[trigger] views[k], t@),
        decreases issued@.len() - i,
    {
        let other = &issued[i];
        assert(views[i as int] == other@);
        if other.plate == t.plate && day(other.timestamp1) <= last && first <= day(
            other.timestamp2,
        ) {
            proof {
                assert(overlap(views[i as int], t@));
                lemma_blocked_is_overlap(views, t@);
            }
            return true;
        }
        i = i + 1;
    }
    proof {
        lemma_blocked_is_overlap(views, t@);
    }
    false
}

} // verus!
