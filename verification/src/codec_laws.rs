//! The wire format is a prefix code: framing and parsing are inverse to each
//! other, whatever follows the frame.

use vstd::prelude::*;
use vstd::utf8::*;
use crate::codec::{
    encodable, frame, parse, parse_ticket, ticket_fields, FrameError, MessageView, TicketView,
};
use crate::layout::{field_end, fields_end, FieldLayout};
use crate::wire::{
    array_field, be16, be16_items, be32, lemma_be16_items_len, lemma_be16_items_read,
    lemma_be16_read16, lemma_be32_read32, lemma_read16_be16, lemma_read16_items,
    lemma_read32_be32, read_text, text_field, text_fits,
};

verus! {

/// Text written as a field at `at` is read back from there.
pub proof fn lemma_read_text_field(s: Seq<char>, b: Seq<u8>, at: int)
    requires
        0 <= at,
        text_fits(s),
        at + text_field(s).len() <= b.len(),
        b.subrange(at, at + text_field(s).len()) == text_field(s),
    ensures
        read_text(b, at) == Some(Some((s, at + text_field(s).len()))),
{
    let f = text_field(s);
    let e = encode_utf8(s);
    assert(f.len() == 1 + e.len());
    assert(b[at] == b.subrange(at, at + f.len())[0]);
    assert(b.subrange(at + 1, at + 1 + e.len()) =~= f.subrange(1, f.len() as int));
    assert(f.subrange(1, f.len() as int) =~= e);
    encode_utf8_valid_utf8(s);
    encode_utf8_decode_utf8(s);
}

/// Text read from a field at `at` was written there as that field.
pub proof fn lemma_text_field_read(b: Seq<u8>, at: int)
    requires
        0 <= at,
        read_text(b, at) is Some,
        read_text(b, at)->0 is Some,
    ensures
        ({
            let (s, e) = read_text(b, at)->0->0;
            &&& text_fits(s)
            &&& e == at + text_field(s).len()
            &&& e <= b.len()
            &&& text_field(s) == b.subrange(at, e)
        }),
{
    let (s, e) = read_text(b, at)->0->0;
    let raw = b.subrange(at + 1, at + 1 + b[at] as int);
    decode_utf8_encode_utf8(raw);
    assert(encode_utf8(s) == raw);
    assert(text_field(s) =~= b.subrange(at, e));
}

proof fn lemma_parse_frame_ticket(t: TicketView, rest: Seq<u8>)
    requires
        text_fits(t.plate),
    ensures
        parse_ticket(seq![crate::codec::OP_TICKET] + ticket_fields(t) + rest) == Ok::<
            (MessageView, int),
            FrameError,
        >((MessageView::Ticket { ticket: t }, 1 + ticket_fields(t).len() as int)),
{
    let b = seq![crate::codec::OP_TICKET] + ticket_fields(t) + rest;
    let l = text_field(t.plate).len() as int;
    let at = 1 + l;
    assert(b.subrange(1, 1 + l) =~= text_field(t.plate));
    lemma_read_text_field(t.plate, b, 1);
    assert(b.subrange(at, at + 2) =~= be16(t.road));
    lemma_read16_be16(t.road, b, at);
    assert(b.subrange(at + 2, at + 4) =~= be16(t.mile1));
    lemma_read16_be16(t.mile1, b, at + 2);
    assert(b.subrange(at + 4, at + 8) =~= be32(t.timestamp1));
    lemma_read32_be32(t.timestamp1, b, at + 4);
    assert(b.subrange(at + 8, at + 10) =~= be16(t.mile2));
    lemma_read16_be16(t.mile2, b, at + 8);
    assert(b.subrange(at + 10, at + 14) =~= be32(t.timestamp2));
    lemma_read32_be32(t.timestamp2, b, at + 10);
    assert(b.subrange(at + 14, at + 16) =~= be16(t.speed));
    lemma_read16_be16(t.speed, b, at + 14);
}

/// Parsing a frame gives back the message and the frame's length, whatever
/// bytes follow it.
pub proof fn lemma_parse_frame(m: MessageView, rest: Seq<u8>)
    requires
        encodable(m),
    ensures
        parse(frame(m) + rest) == Ok::<(MessageView, int), FrameError>(
            (m, frame(m).len() as int),
        ),
{
    let b = frame(m) + rest;
    match m {
        MessageView::Error { message } => {
            let l = text_field(message).len() as int;
            assert(b.subrange(1, 1 + l) =~= text_field(message));
            lemma_read_text_field(message, b, 1);
        },
        MessageView::Plate { plate, timestamp } => {
            let l = text_field(plate).len() as int;
            assert(b.subrange(1, 1 + l) =~= text_field(plate));
            lemma_read_text_field(plate, b, 1);
            assert(b.subrange(1 + l, 1 + l + 4) =~= be32(timestamp));
            lemma_read32_be32(timestamp, b, 1 + l);
        },
        MessageView::Ticket { ticket } => {
            lemma_parse_frame_ticket(ticket, rest);
            assert(b =~= seq![crate::codec::OP_TICKET] + ticket_fields(ticket) + rest);
        },
        MessageView::WantHeartbeat { interval } => {
            assert(b.subrange(1, 5) =~= be32(interval));
            lemma_read32_be32(interval, b, 1);
        },
        MessageView::Heartbeat => {},
        MessageView::IAmCamera { road, mile, limit } => {
            assert(b.subrange(1, 3) =~= be16(road));
            lemma_read16_be16(road, b, 1);
            assert(b.subrange(3, 5) =~= be16(mile));
            lemma_read16_be16(mile, b, 3);
            assert(b.subrange(5, 7) =~= be16(limit));
            lemma_read16_be16(limit, b, 5);
        },
        MessageView::IAmDispatcher { roads } => {
            lemma_be16_items_len(roads);
            assert(b[1] == roads.len());
            assert(b.subrange(2, 2 + 2 * roads.len() as int) =~= be16_items(roads));
            lemma_read16_items(roads, b, 2);
        },
    }
}

proof fn lemma_frame_parse_ticket(b: Seq<u8>)
    requires
        b.len() > 0,
        b[0] == crate::codec::OP_TICKET,
        parse_ticket(b) is Ok,
    ensures
        ({
            let (m, n) = parse_ticket(b)->Ok_0;
            &&& encodable(m)
            &&& 0 < n <= b.len()
            &&& frame(m) == b.subrange(0, n)
        }),
{
    let (m, n) = parse_ticket(b)->Ok_0;
    lemma_text_field_read(b, 1);
    let (plate, at) = read_text(b, 1)->0->0;
    lemma_be16_read16(b, at);
    lemma_be16_read16(b, at + 2);
    lemma_be32_read32(b, at + 4);
    lemma_be16_read16(b, at + 8);
    lemma_be32_read32(b, at + 10);
    lemma_be16_read16(b, at + 14);
    assert(frame(m) =~= b.subrange(0, 1) + b.subrange(1, at) + b.subrange(at, at + 2) + b.subrange(
        at + 2,
        at + 4,
    ) + b.subrange(at + 4, at + 8) + b.subrange(at + 8, at + 10) + b.subrange(at + 10, at + 14)
        + b.subrange(at + 14, at + 16));
    assert(frame(m) =~= b.subrange(0, n));
}

/// A parsed message can be framed, and its frame is exactly the bytes that
/// the parse took.
pub proof fn lemma_frame_parse(b: Seq<u8>)
    requires
        parse(b) is Ok,
    ensures
        ({
            let (m, n) = parse(b)->Ok_0;
            &&& encodable(m)
            &&& 0 < n <= b.len()
            &&& frame(m) == b.subrange(0, n)
        }),
{
    let (m, n) = parse(b)->Ok_0;
    match m {
        MessageView::Error { message } => {
            lemma_text_field_read(b, 1);
            assert(frame(m) =~= b.subrange(0, 1) + b.subrange(1, n));
            assert(frame(m) =~= b.subrange(0, n));
        },
        MessageView::Plate { plate, timestamp } => {
            lemma_text_field_read(b, 1);
            let (text, at) = read_text(b, 1)->0->0;
            lemma_be32_read32(b, at);
            assert(frame(m) =~= b.subrange(0, 1) + b.subrange(1, at) + b.subrange(at, at + 4));
            assert(frame(m) =~= b.subrange(0, n));
        },
        MessageView::Ticket { ticket } => {
            lemma_frame_parse_ticket(b);
        },
        MessageView::WantHeartbeat { interval } => {
            lemma_be32_read32(b, 1);
            assert(frame(m) =~= b.subrange(0, 1) + b.subrange(1, 5));
            assert(frame(m) =~= b.subrange(0, n));
        },
        MessageView::Heartbeat => {
            assert(frame(m) =~= b.subrange(0, n));
        },
        MessageView::IAmCamera { road, mile, limit } => {
            lemma_be16_read16(b, 1);
            lemma_be16_read16(b, 3);
            lemma_be16_read16(b, 5);
            assert(frame(m) =~= b.subrange(0, 1) + b.subrange(1, 3) + b.subrange(3, 5)
                + b.subrange(5, 7));
            assert(frame(m) =~= b.subrange(0, n));
        },
        MessageView::IAmDispatcher { roads } => {
            let k = b[1] as int;
            lemma_be16_items_read(b, 2, k as nat);
            assert(array_field(roads) =~= b.subrange(1, 2) + b.subrange(2, 2 + 2 * k));
            assert(frame(m) =~= b.subrange(0, 1) + b.subrange(1, 2) + b.subrange(2, 2 + 2 * k));
            assert(frame(m) =~= b.subrange(0, n));
        },
    }
}

/// No message has two frames, and no two messages share one: framing is
/// injective on the messages that can be framed.
pub proof fn lemma_frame_injective(m1: MessageView, m2: MessageView)
    requires
        encodable(m1),
        encodable(m2),
        frame(m1) == frame(m2),
    ensures
        m1 == m2,
{
    lemma_parse_frame(m1, Seq::<u8>::empty());
    lemma_parse_frame(m2, Seq::<u8>::empty());
}

proof fn lemma_fields_end_one(f: FieldLayout, b: Seq<u8>, at: int)
    ensures
        fields_end(seq![f], b, at) == field_end(f, b, at),
{
    assert(seq![f].drop_first() =~= Seq::<FieldLayout>::empty());
    reveal_with_fuel(fields_end, 2);
}

proof fn lemma_fields_end_first(f: FieldLayout, rest: Seq<FieldLayout>, b: Seq<u8>, at: int)
    ensures
        fields_end(seq![f] + rest, b, at) == match field_end(f, b, at) {
            Some(next) => fields_end(rest, b, next),
            None => None,
        },
{
    assert((seq![f] + rest).drop_first() =~= rest);
}

/// The fields of each kind of frame, by opcode.
pub open spec fn layout_of(opcode: u8) -> Option<Seq<FieldLayout>> {
    let int16 = FieldLayout::Int { width: 2 };
    let int32 = FieldLayout::Int { width: 4 };
    if opcode == crate::codec::OP_ERROR {
        Some(seq![FieldLayout::Text])
    } else if opcode == crate::codec::OP_PLATE {
        Some(seq![FieldLayout::Text, int32])
    } else if opcode == crate::codec::OP_TICKET {
        Some(seq![FieldLayout::Text, int16, int16, int32, int16, int32, int16])
    } else if opcode == crate::codec::OP_WANT_HEARTBEAT {
        Some(seq![int32])
    } else if opcode == crate::codec::OP_HEARTBEAT {
        Some(Seq::<FieldLayout>::empty())
    } else if opcode == crate::codec::OP_I_AM_CAMERA {
        Some(seq![int16, int16, int16])
    } else if opcode == crate::codec::OP_I_AM_DISPATCHER {
        Some(seq![FieldLayout::IntArray { width: 2 }])
    } else {
        None
    }
}

/// The length of a frame follows from its opcode's field layout alone: a
/// parse succeeds only where the fields of the opcode end within the bytes,
/// and takes the bytes up to that end; it finds the bytes truncated only
/// where the fields do not end within them; and the opcodes without a layout
/// are the unknown ones.
pub proof fn lemma_parse_follows_layout(b: Seq<u8>)
    requires
        b.len() > 0,
    ensures
        parse(b) matches Ok((m, n)) ==> layout_of(b[0]) is Some && fields_end(
            layout_of(b[0])->0,
            b,
            1,
        ) == Some(n),
        parse(b) == Err::<(MessageView, int), FrameError>(FrameError::Truncated) ==> layout_of(
            b[0],
        ) is Some && fields_end(layout_of(b[0])->0, b, 1) is None,
        parse(b) == Err::<(MessageView, int), FrameError>(FrameError::UnknownOpcode(b[0]))
            <==> layout_of(b[0]) is None,
{
    let op = b[0];
    let int16 = FieldLayout::Int { width: 2 };
    let int32 = FieldLayout::Int { width: 4 };
    let none = Seq::<FieldLayout>::empty();
    if op == crate::codec::OP_ERROR {
        lemma_fields_end_one(FieldLayout::Text, b, 1);
    } else if op == crate::codec::OP_PLATE {
        lemma_fields_end_first(FieldLayout::Text, seq![int32], b, 1);
        assert(seq![FieldLayout::Text] + seq![int32] =~= seq![FieldLayout::Text, int32]);
        if field_end(FieldLayout::Text, b, 1) is Some {
            lemma_fields_end_one(int32, b, field_end(FieldLayout::Text, b, 1)->0);
        }
    } else if op == crate::codec::OP_TICKET {
        let r5 = seq![int16];
        let r4 = seq![int32] + r5;
        let r3 = seq![int16] + r4;
        let r2 = seq![int32] + r3;
        let r1 = seq![int16] + r2;
        let r0 = seq![int16] + r1;
        assert(seq![FieldLayout::Text] + r0 =~= seq![
            FieldLayout::Text,
            int16,
            int16,
            int32,
            int16,
            int32,
            int16,
        ]);
        lemma_fields_end_first(FieldLayout::Text, r0, b, 1);
        if field_end(FieldLayout::Text, b, 1) is Some {
            let at = field_end(FieldLayout::Text, b, 1)->0;
            lemma_fields_end_first(int16, r1, b, at);
            lemma_fields_end_first(int16, r2, b, at + 2);
            lemma_fields_end_first(int32, r3, b, at + 4);
            lemma_fields_end_first(int16, r4, b, at + 8);
            lemma_fields_end_first(int32, r5, b, at + 10);
            lemma_fields_end_one(int16, b, at + 14);
        }
    } else if op == crate::codec::OP_WANT_HEARTBEAT {
        lemma_fields_end_one(int32, b, 1);
    } else if op == crate::codec::OP_HEARTBEAT {
    } else if op == crate::codec::OP_I_AM_CAMERA {
        let r1 = seq![int16];
        let r0 = seq![int16] + r1;
        assert(seq![int16] + r0 =~= seq![int16, int16, int16]);
        lemma_fields_end_first(int16, r0, b, 1);
        lemma_fields_end_first(int16, r1, b, 3);
        lemma_fields_end_one(int16, b, 5);
    } else if op == crate::codec::OP_I_AM_DISPATCHER {
        lemma_fields_end_one(FieldLayout::IntArray { width: 2 }, b, 1);
        if b.len() > 1 {
            let width: usize = 2;
            assert(b[1] as int * width == 2 * (b[1] as int)) by (nonlinear_arith)
                requires
                    width == 2,
            ;
        }
    }
}

} // verus!
