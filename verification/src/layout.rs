//! Field layouts of wire frames.
//!
//! A frame has no length field: its extent follows from the layout of its
//! fields alone.  A field is a fixed-width big-endian integer, an array of
//! such integers behind a one-byte count, or text behind a one-byte length.

use vstd::prelude::*;
use crate::text::same_text;

verus! {

/// Width in bytes of the integer type called `ty`, if `ty` names one.
pub open spec fn int_byte_size_spec(ty: Seq<char>) -> Option<usize> {
    if ty == "u8"@ || ty == "i8"@ {
        Some(1usize)
    } else if ty == "u16"@ || ty == "i16"@ {
        Some(2usize)
    } else if ty == "u32"@ || ty == "i32"@ {
        Some(4usize)
    } else if ty == "u64"@ || ty == "i64"@ {
        Some(8usize)
    } else {
        None
    }
}

/// Width in bytes of the integer type called `ty`; `None` for any other name.
pub fn int_byte_size(ty: &str) -> (r: Option<usize>)
    ensures
        r == int_byte_size_spec(ty@),
{
    if same_text(ty, "u8") || same_text(ty, "i8") {
        Some(1)
    } else if same_text(ty, "u16") || same_text(ty, "i16") {
        Some(2)
    } else if same_text(ty, "u32") || same_text(ty, "i32") {
        Some(4)
    } else if same_text(ty, "u64") || same_text(ty, "i64") {
        Some(8)
    } else {
        None
    }
}

/// How one field lies on the wire.
#[derive(Clone, Copy, Debug, PartialEq, Eq, Structural)]
pub enum FieldLayout {
    /// A big-endian integer of `width` bytes.
    Int { width: usize },
    /// A count byte, then that many big-endian integers of `width` bytes.
    IntArray { width: usize },
    /// A length byte, then that many bytes of UTF-8.
    Text,
}

/// The layout of a field of the type called `ty`; for `Vec`, `inner` names
/// the type of its items.  Integers, vectors of integers and `String` have a
/// layout, no other type has.
pub open spec fn field_layout_spec(ty: Seq<char>, inner: Option<Seq<char>>) -> Option<
    FieldLayout,
> {
    if int_byte_size_spec(ty) is Some {
        Some(FieldLayout::Int { width: int_byte_size_spec(ty)->0 })
    } else if ty == "Vec"@ {
        if inner is Some && int_byte_size_spec(inner->0) is Some {
            Some(FieldLayout::IntArray { width: int_byte_size_spec(inner->0)->0 })
        } else {
            None
        }
    } else if ty == "String"@ {
        Some(FieldLayout::Text)
    } else {
        None
    }
}

/// The layout of a field of the type called `ty`.
pub fn field_layout(ty: &str, inner: Option<&str>) -> (r: Option<FieldLayout>)
    ensures
        r == field_layout_spec(
            ty@,
            match inner {
                Some(i) => Some(i@),
                None => None,
            },
        ),
{
    match int_byte_size(ty) {
        Some(width) => Some(FieldLayout::Int { width }),
        None => {
            if same_text(ty, "Vec") {
                match inner {
                    Some(i) => match int_byte_size(i) {
                        Some(width) => Some(FieldLayout::IntArray { width }),
                        None => None,
                    },
                    None => None,
                }
            } else if same_text(ty, "String") {
                Some(FieldLayout::Text)
            } else {
                None
            }
        },
    }
}

/// Where a field that begins at `at` ends; `None` where the bytes end first.
pub open spec fn field_end(f: FieldLayout, b: Seq<u8>, at: int) -> Option<int> {
    match f {
        FieldLayout::Int { width } => if at + width <= b.len() {
            Some(at + width)
        } else {
            None
        },
        FieldLayout::IntArray { width } => if at < b.len() && at + 1 + b[at] as int * width
            <= b.len() {
            Some(at + 1 + b[at] as int * width)
        } else {
            None
        },
        FieldLayout::Text => if at < b.len() && at + 1 + b[at] as int <= b.len() {
            Some(at + 1 + b[at] as int)
        } else {
            None
        },
    }
}

/// Where a run of fields that begins at `at` ends; `None` where the bytes
/// end first.
pub open spec fn fields_end(fields: Seq<FieldLayout>, b: Seq<u8>, at: int) -> Option<int>
    decreases fields.len(),
{
    if fields.len() == 0 {
        Some(at)
    } else {
        match field_end(fields[0], b, at) {
            Some(next) => fields_end(fields.drop_first(), b, next),
            None => None,
        }
    }
}

/// Where the field that begins at `at` ends.
pub fn end_of_field(f: FieldLayout, buf: &[u8], at: usize) -> (r: Option<usize>)
    requires
        at <= buf@.len(),
    ensures
        match (r, field_end(f, buf@, at as int)) {
            (Some(end), Some(e)) => end == e && end <= buf@.len(),
            (None, None) => true,
            _ => false,
        },
{
    let room: usize = buf.len() - at;
    match f {
        FieldLayout::Int { width } => if width <= room {
            Some(at + width)
        } else {
            None
        },
        FieldLayout::IntArray { width } => {
            if room == 0 {
                return None;
            }
            let count: usize = buf[at] as usize;
            match count.checked_mul(width) {
                Some(size) => if size <= room - 1 {
                    Some(at + 1 + size)
                } else {
                    None
                },
                None => None,
            }
        },
        FieldLayout::Text => {
            if room == 0 {
                return None;
            }
            let size: usize = buf[at] as usize;
            if size <= room - 1 {
                Some(at + 1 + size)
            } else {
                None
            }
        },
    }
}

/// Where the run of `fields` that begins at `at` ends: the extent of a
/// frame follows from the layout of its fields alone.
pub fn end_of_fields(fields: &Vec<FieldLayout>, buf: &[u8], at: usize) -> (r: Option<usize>)
    requires
        at <= buf@.len(),
    ensures
        match (r, fields_end(fields@, buf@, at as int)) {
            (Some(end), Some(e)) => end == e && end <= buf@.len(),
            (None, None) => true,
            _ => false,
        },
{
    let mut pos: usize = at;
    let mut i: usize = 0;
    assert(fields@.subrange(0, fields@.len() as int) =~= fields@);
    while i < fields.len()
        invariant
            i <= fields@.len(),
            pos <= buf@.len(),
            fields_end(fields@, buf@, at as int) == fields_end(
                fields@.subrange(i as int, fields@.len() as int),
                buf@,
                pos as int,
            ),
        decreases fields@.len() - i,
    {
        let ghost rest = fields@.subrange(i as int, fields@.len() as int);
        assert(rest[0] == fields@[i as int]);
        assert(rest.drop_first() =~= fields@.subrange(i + 1, fields@.len() as int));
        match end_of_field(fields[i], buf, pos) {
            Some(next) => {
                pos = next;
            },
            None => {
                return None;
            },
        }
        i = i + 1;
    }
    Some(pos)
}

} // verus!
