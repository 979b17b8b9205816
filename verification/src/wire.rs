//! Primitive wire fields: big-endian integers and length-prefixed text.

use vstd::prelude::*;
use vstd::utf8::*;

verus! {

/// The two bytes of `v`, most significant first.
pub open spec fn be16(v: u16) -> Seq<u8> {
    seq![(v / 256) as u8, (v % 256) as u8]
}

/// The four bytes of `v`, most significant first.
pub open spec fn be32(v: u32) -> Seq<u8> {
    seq![
        (v / 16777216) as u8,
        ((v / 65536) % 256) as u8,
        ((v / 256) % 256) as u8,
        (v % 256) as u8,
    ]
}

/// The integer whose big-endian bytes stand at `at` and `at + 1`.
pub open spec fn read16(b: Seq<u8>, at: int) -> u16 {
    (b[at] as int * 256 + b[at + 1] as int) as u16
}

/// The integer whose big-endian bytes stand at `at` .. `at + 3`.
pub open spec fn read32(b: Seq<u8>, at: int) -> u32 {
    (b[at] as int * 16777216 + b[at + 1] as int * 65536 + b[at + 2] as int * 256 + b[at + 3] as int) as u32
}

/// Text fits a wire field when its UTF-8 encoding is at most 255 bytes long.
pub open spec fn text_fits(s: Seq<char>) -> bool {
    encode_utf8(s).len() <= 255
}

/// A text field: one length byte, then the UTF-8 encoding.
pub open spec fn text_field(s: Seq<char>) -> Seq<u8> {
    seq![encode_utf8(s).len() as u8] + encode_utf8(s)
}

/// The concatenated big-endian encodings of `items`.
pub open spec fn be16_items(items: Seq<u16>) -> Seq<u8>
    decreases items.len(),
{
    if items.len() == 0 {
        Seq::<u8>::empty()
    } else {
        be16_items(items.drop_last()) + be16(items.last())
    }
}

/// An array field: one count byte, then each item big-endian.
pub open spec fn array_field(items: Seq<u16>) -> Seq<u8> {
    seq![items.len() as u8] + be16_items(items)
}

/// The `n` integers read from `b`, two bytes each, starting at `at`.
pub open spec fn read16_items(b: Seq<u8>, at: int, n: nat) -> Seq<u16> {
    Seq::new(n, |i: int| read16(b, at + 2 * i))
}

pub proof fn lemma_be16_items_len(items: Seq<u16>)
    ensures
        be16_items(items).len() == 2 * items.len(),
    decreases items.len(),
{
    if items.len() > 0 {
        lemma_be16_items_len(items.drop_last());
    }
}

/// Reading back a big-endian pair gives the integer that was written.
pub proof fn lemma_read16_be16(v: u16, b: Seq<u8>, at: int)
    requires
        0 <= at,
        at + 2 <= b.len(),
        b.subrange(at, at + 2) == be16(v),
    ensures
        read16(b, at) == v,
{
    assert(b[at] == b.subrange(at, at + 2)[0]);
    assert(b[at + 1] == b.subrange(at, at + 2)[1]);
}

/// Writing the integer read from a pair of bytes gives those bytes back.
pub proof fn lemma_be16_read16(b: Seq<u8>, at: int)
    requires
        0 <= at,
        at + 2 <= b.len(),
    ensures
        be16(read16(b, at)) == b.subrange(at, at + 2),
{
    let v = read16(b, at);
    assert(v == b[at] as int * 256 + b[at + 1] as int);
    assert(be16(v) =~= b.subrange(at, at + 2));
}

/// Reading back a big-endian quadruple gives the integer that was written.
pub proof fn lemma_read32_be32(v: u32, b: Seq<u8>, at: int)
    requires
        0 <= at,
        at + 4 <= b.len(),
        b.subrange(at, at + 4) == be32(v),
    ensures
        read32(b, at) == v,
{
    let s = b.subrange(at, at + 4);
    assert(b[at] == s[0]);
    assert(b[at + 1] == s[1]);
    assert(b[at + 2] == s[2]);
    assert(b[at + 3] == s[3]);
}

/// Writing the integer read from four bytes gives those bytes back.
pub proof fn lemma_be32_read32(b: Seq<u8>, at: int)
    requires
        0 <= at,
        at + 4 <= b.len(),
    ensures
        be32(read32(b, at)) == b.subrange(at, at + 4),
{
    let v = read32(b, at);
    assert(v == b[at] as int * 16777216 + b[at + 1] as int * 65536 + b[at + 2] as int * 256 + b[at + 3] as int);
    assert(be32(v) =~= b.subrange(at, at + 4));
}

/// Reading back an array of big-endian pairs gives the items that were written.
pub proof fn lemma_read16_items(items: Seq<u16>, b: Seq<u8>, at: int)
    requires
        0 <= at,
        at + 2 * items.len() <= b.len(),
        b.subrange(at, at + 2 * items.len()) == be16_items(items),
    ensures
        read16_items(b, at, items.len()) == items,
    decreases items.len(),
{
    if items.len() > 0 {
        let front = items.drop_last();
        let n = front.len() as int;
        lemma_be16_items_len(front);
        let whole = b.subrange(at, at + 2 * items.len());
        assert(b.subrange(at, at + 2 * n) =~= whole.subrange(0, 2 * n));
        assert(whole.subrange(0, 2 * n) =~= be16_items(front));
        lemma_read16_items(front, b, at);
        assert(b.subrange(at + 2 * n, at + 2 * n + 2) =~= whole.subrange(2 * n, 2 * n + 2));
        assert(whole.subrange(2 * n, 2 * n + 2) =~= be16(items.last()));
        lemma_read16_be16(items.last(), b, at + 2 * n);
        assert forall|i: int| 0 <= i < items.len() implies read16_items(b, at, items.len())[i] == items[i] by {
            if i < n {
                assert(read16_items(b, at, front.len())[i] == front[i]);
            }
        }
    }
    assert(read16_items(b, at, items.len()) =~= items);
}

/// Writing the items read from a run of byte pairs gives those bytes back.
pub proof fn lemma_be16_items_read(b: Seq<u8>, at: int, n: nat)
    requires
        0 <= at,
        at + 2 * n <= b.len(),
    ensures
        be16_items(read16_items(b, at, n)) == b.subrange(at, at + 2 * n),
    decreases n,
{
    let items = read16_items(b, at, n);
    if n > 0 {
        let m = (n - 1) as nat;
        assert(items.drop_last() =~= read16_items(b, at, m));
        lemma_be16_items_read(b, at, m);
        lemma_be16_read16(b, at + 2 * m);
        assert(be16_items(items) =~= b.subrange(at, at + 2 * n));
    } else {
        assert(be16_items(items) =~= b.subrange(at, at + 2 * n));
    }
}

/// `String::from_utf8`: succeeds exactly on valid UTF-8 and then yields the
/// text whose UTF-8 encoding is the given bytes.
#[verifier::external_body]
fn string_from_utf8(bytes: Vec<u8>) -> (r: Option<String>)
    ensures
        r is Some <==> valid_utf8(bytes@),
        r matches Some(s) ==> encode_utf8(s@) == bytes@,
{
    match String::from_utf8(bytes) {
        Ok(s) => Some(s),
        Err(_) => None,
    }
}

/// Whether `bytes` are UTF-8.
pub fn is_utf8(bytes: &[u8]) -> (b: bool)
    ensures
        b == valid_utf8(bytes@),
{
    let copy = copy_range(bytes, 0, bytes.len());
    assert(copy@ =~= bytes@);
    string_from_utf8(copy).is_some()
}

/// Whether two runs of bytes are the same.
pub fn same_bytes(a: &[u8], b: &[u8]) -> (r: bool)
    ensures
        r == (a@ == b@),
{
    if a.len() != b.len() {
        return false;
    }
    let mut i: usize = 0;
    while i < a.len()
        invariant
            i <= a@.len(),
            a@.len() == b@.len(),
            forall|k: int| 0 <= k < i ==> a@[k] == b@[k],
        decreases a@.len() - i,
    {
        if a[i] != b[i] {
            return false;
        }
        i = i + 1;
    }
    assert(a@ =~= b@);
    true
}

/// The bytes of `buf` from `from` up to `to`, copied out.
pub fn copy_range(buf: &[u8], from: usize, to: usize) -> (v: Vec<u8>)
    requires
        from <= to <= buf@.len(),
    ensures
        v@ == buf@.subrange(from as int, to as int),
{
    let mut v: Vec<u8> = Vec::new();
    let mut i: usize = from;
    while i < to
        invariant
            from <= i <= to <= buf@.len(),
            v@ == buf@.subrange(from as int, i as int),
        decreases to - i,
    {
        v.push(buf[i]);
        i = i + 1;
        assert(v@ =~= buf@.subrange(from as int, i as int));
    }
    v
}

/// The big-endian integer at `at`.
pub fn get_u16(buf: &[u8], at: usize) -> (v: u16)
    requires
        at + 2 <= buf@.len(),
    ensures
        v == read16(buf@, at as int),
{
    let hi: u16 = buf[at] as u16;
    let lo: u16 = buf[at + 1] as u16;
    hi * 256 + lo
}

/// The big-endian integer at `at`.
pub fn get_u32(buf: &[u8], at: usize) -> (v: u32)
    requires
        at + 4 <= buf@.len(),
    ensures
        v == read32(buf@, at as int),
{
    let b0: u32 = buf[at] as u32;
    let b1: u32 = buf[at + 1] as u32;
    let b2: u32 = buf[at + 2] as u32;
    let b3: u32 = buf[at + 3] as u32;
    b0 * 16777216 + b1 * 65536 + b2 * 256 + b3
}

/// Appends the big-endian bytes of `v`.
pub fn put_u16(out: &mut Vec<u8>, v: u16)
    ensures
        final(out)@ == old(out)@ + be16(v),
{
    out.push((v / 256) as u8);
    out.push((v % 256) as u8);
    assert(out@ =~= old(out)@ + be16(v));
}

/// Appends the big-endian bytes of `v`.
pub fn put_u32(out: &mut Vec<u8>, v: u32)
    ensures
        final(out)@ == old(out)@ + be32(v),
{
    out.push((v / 16777216) as u8);
    out.push(((v / 65536) % 256) as u8);
    out.push(((v / 256) % 256) as u8);
    out.push((v % 256) as u8);
    assert(out@ =~= old(out)@ + be32(v));
}

/// What reading a text field at `at` yields: the text and the offset behind
/// it, `None` while the field is not all there, and `Some(None)` when its
/// bytes are not UTF-8.
pub open spec fn read_text(b: Seq<u8>, at: int) -> Option<Option<(Seq<char>, int)>> {
    if at >= b.len() {
        None
    } else {
        let end = at + 1 + b[at] as int;
        if end > b.len() {
            None
        } else if !valid_utf8(b.subrange(at + 1, end)) {
            Some(None)
        } else {
            Some(Some((decode_utf8(b.subrange(at + 1, end)), end)))
        }
    }
}

/// Reads the text field at `at`.
pub fn get_text(buf: &[u8], at: usize) -> (r: Option<Option<(String, usize)>>)
    requires
        at <= buf@.len(),
    ensures
        match (r, read_text(buf@, at as int)) {
            (None, None) => true,
            (Some(None), Some(None)) => true,
            (Some(Some((s, end))), Some(Some((t, e)))) => s@ == t && end == e && end <= buf@.len(),
            _ => false,
        },
{
    if at >= buf.len() {
        return None;
    }
    let n: usize = buf[at] as usize;
    if n > buf.len() - at - 1 {
        return None;
    }
    let end: usize = at + 1 + n;
    let raw = copy_range(buf, at + 1, end);
    match string_from_utf8(raw) {
        None => Some(None),
        Some(s) => {
            proof {
                encode_utf8_decode_utf8(s@);
            }
            Some(Some((s, end)))
        },
    }
}

/// Appends `s` as a text field; `false`, with `out` untouched, when it does
/// not fit.
pub fn put_text(out: &mut Vec<u8>, s: &String) -> (ok: bool)
    ensures
        ok == text_fits(s@),
        ok ==> final(out)@ == old(out)@ + text_field(s@),
        !ok ==> final(out)@ == old(out)@,
{
    let bytes = s.as_str().as_bytes();
    let n: usize = bytes.len();
    if n > 255 {
        return false;
    }
    out.push(n as u8);
    let mut i: usize = 0;
    while i < n
        invariant
            i <= n,
            n == bytes@.len(),
            n <= 255,
            out@ == old(out)@ + seq![n as u8] + bytes@.subrange(0, i as int),
        decreases n - i,
    {
        out.push(bytes[i]);
        i = i + 1;
        assert(out@ =~= old(out)@ + seq![n as u8] + bytes@.subrange(0, i as int));
    }
    assert(bytes@.subrange(0, n as int) =~= bytes@);
    assert(out@ =~= old(out)@ + text_field(s@));
    true
}

} // verus!
