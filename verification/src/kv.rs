//! A key-value store that is asked by datagram.
//!
//! A datagram with a `=` in it sets the key before the first `=` to what
//! follows it; one without asks for the value of a key and is answered with
//! `key=value`.  The key `version` cannot be set and is answered with the
//! name of the store.

use vstd::prelude::*;
use vstd::utf8::{encode_utf8, valid_utf8};
use crate::wire::{copy_range, is_utf8, same_bytes};

verus! {

/// What a datagram asks for.
#[derive(Clone, Debug, PartialEq, Eq)]
pub enum Request {
    Insert { key: Vec<u8>, value: Vec<u8> },
    Retrieve { key: Vec<u8> },
}

/// The mathematical content of a [`Request`].
pub enum RequestView {
    Insert { key: Seq<u8>, value: Seq<u8> },
    Retrieve { key: Seq<u8> },
}

impl View for Request {
    type V = RequestView;

    open spec fn view(&self) -> RequestView {
        match *self {
            Request::Insert { key, value } => RequestView::Insert { key: key@, value: value@ },
            Request::Retrieve { key } => RequestView::Retrieve { key: key@ },
        }
    }
}

/// The white space of ASCII: space, tab, line feed, form feed, carriage
/// return.
pub open spec fn is_space(b: u8) -> bool {
    b == 0x20 || b == 0x09 || b == 0x0a || b == 0x0c || b == 0x0d
}

/// `b` without the ASCII white space at its end.
pub open spec fn stripped(b: Seq<u8>) -> Seq<u8>
    decreases b.len(),
{
    if b.len() > 0 && is_space(b.last()) {
        stripped(b.drop_last())
    } else {
        b
    }
}

/// Whether the first `=` of `b` stands at `i`.
pub open spec fn first_equals_at(b: Seq<u8>, i: int) -> bool {
    &&& 0 <= i < b.len()
    &&& b[i] == 0x3d
    &&& forall|j: int| 0 <= j < i ==> b[j] != 0x3d
}

/// What a datagram asks for; nothing where it is not UTF-8.
pub open spec fn request_of(datagram: Seq<u8>) -> Option<RequestView> {
    if !valid_utf8(datagram) {
        None
    } else {
        let m = stripped(datagram);
        if exists|i: int| first_equals_at(m, i) {
            let i = choose|i: int| first_equals_at(m, i);
            Some(
                RequestView::Insert { key: m.subrange(0, i), value: m.subrange(i + 1, m.len() as int) },
            )
        } else {
            Some(RequestView::Retrieve { key: m })
        }
    }
}

/// The key that names the store.
pub open spec fn version_key() -> Seq<u8> {
    encode_utf8("version"@)
}

/// The answer to the key that names the store.
pub open spec fn version_reply() -> Seq<u8> {
    encode_utf8("Ken's Key-Value Store 1.0\n"@)
}

/// The store after `request`, and the datagram to answer with, if any.
pub open spec fn kv_step(store: Map<Seq<u8>, Seq<u8>>, request: RequestView) -> (
    Map<Seq<u8>, Seq<u8>>,
    Option<Seq<u8>>,
) {
    match request {
        RequestView::Insert { key, value } => if key == version_key() {
            (store, None)
        } else {
            (store.insert(key, value), None)
        },
        RequestView::Retrieve { key } => if key == version_key() {
            (store, Some(version_reply()))
        } else if store.contains_key(key) {
            (store, Some(key + seq![0x3du8] + store[key] + seq![0x0au8]))
        } else {
            (store, None)
        },
    }
}

/// The number of bytes of `buf` before the ASCII white space at its end.
fn stripped_len(buf: &[u8]) -> (n: usize)
    ensures
        n <= buf@.len(),
        buf@.subrange(0, n as int) == stripped(buf@),
{
    let mut n: usize = buf.len();
    assert(buf@.subrange(0, n as int) =~= buf@);
    while n > 0 && (buf[n - 1] == 0x20 || buf[n - 1] == 0x09 || buf[n - 1] == 0x0a || buf[n - 1]
        == 0x0c || buf[n - 1] == 0x0d)
        invariant
            n <= buf@.len(),
            stripped(buf@.subrange(0, n as int)) == stripped(buf@),
        decreases n,
    {
        assert(buf@.subrange(0, n as int).drop_last() =~= buf@.subrange(0, n - 1));
        n = n - 1;
    }
    n
}

/// What a datagram asks for; nothing where it is not UTF-8.
pub fn parse_request(datagram: &[u8]) -> (r: Option<Request>)
    ensures
        match (r, request_of(datagram@)) {
            (Some(request), Some(view)) => request@ == view,
            (None, None) => true,
            _ => false,
        },
{
    if !is_utf8(datagram) {
        return None;
    }
    let n = stripped_len(datagram);
    let ghost m = stripped(datagram@);
    let mut i: usize = 0;
    while i < n
        invariant
            i <= n <= datagram@.len(),
            valid_utf8(datagram@),
            m == stripped(datagram@),
            m == datagram@.subrange(0, n as int),
            forall|j: int| 0 <= j < i ==> m[j] != 0x3d,
        decreases n - i,
    {
        if datagram[i] == 0x3d {
            let key = copy_range(datagram, 0, i);
            let value = copy_range(datagram, i + 1, n);
            proof {
                assert(first_equals_at(m, i as int));
                let c = choose|c: int| first_equals_at(m, c);
                assert(c == i);
                assert(key@ =~= m.subrange(0, i as int));
                assert(value@ =~= m.subrange(i + 1, m.len() as int));
            }
            return Some(Request::Insert { key, value });
        }
        i = i + 1;
    }
    let key = copy_range(datagram, 0, n);
    Some(Request::Retrieve { key })
}

/// The store.
pub struct Store {
    keys: Vec<Vec<u8>>,
    values: Vec<Vec<u8>>,
}

/// The contents of a list of byte strings.
pub open spec fn byte_views(items: Seq<Vec<u8>>) -> Seq<Seq<u8>> {
    items.map_values(|v: Vec<u8>| v@)
}

impl View for Store {
    type V = Map<Seq<u8>, Seq<u8>>;

    closed spec fn view(&self) -> Map<Seq<u8>, Seq<u8>> {
        Map::new(
            |k: Seq<u8>| byte_views(self.keys@).contains(k),
            |k: Seq<u8>| self.values@[byte_views(self.keys@).index_of(k)]@,
        )
    }
}

proof fn lemma_key_index(keys: Seq<Seq<u8>>, i: int)
    requires
        keys.no_duplicates(),
        0 <= i < keys.len(),
    ensures
        keys.contains(keys[i]),
        keys.index_of(keys[i]) == i,
{
    assert(keys.contains(keys[i]));
    let j = keys.index_of(keys[i]);
    assert(0 <= j < keys.len() && keys[j] == keys[i]);
}

impl Store {
    /// No key is held twice.
    pub closed spec fn wf(&self) -> bool {
        &&& self.keys@.len() == self.values@.len()
        &&& byte_views(self.keys@).no_duplicates()
    }

    /// An empty store.
    pub fn new() -> (s: Store)
        ensures
            s.wf(),
            s@ == Map::<Seq<u8>, Seq<u8>>::empty(),
    {
        let s = Store { keys: Vec::new(), values: Vec::new() };
        assert(s@ =~= Map::<Seq<u8>, Seq<u8>>::empty());
        s
    }

    fn find(&self, key: &[u8]) -> (r: Option<usize>)
        requires
            self.wf(),
        ensures
            match r {
                Some(i) => i < self.keys@.len() && self.keys@[i as int]@ == key@
                    && self@.contains_key(key@) && self@[key@] == self.values@[i as int]@,
                None => !self@.contains_key(key@),
            },
    {
        let ghost ks = byte_views(self.keys@);
        let mut i: usize = 0;
        while i < self.keys.len()
            invariant
                self.wf(),
                ks == byte_views(self.keys@),
                i <= self.keys@.len(),
                forall|k: int| 0 <= k < i ==> ks[k] != key@,
            decreases self.keys@.len() - i,
        {
            assert(ks[i as int] == self.keys@[i as int]@);
            if same_bytes(self.keys[i].as_slice(), key) {
                proof {
                    lemma_key_index(ks, i as int);
                }
                return Some(i);
            }
            i = i + 1;
        }
        None
    }

    /// The value held for `key`.
    pub fn get(&self, key: &[u8]) -> (r: Option<Vec<u8>>)
        requires
            self.wf(),
        ensures
            match r {
                Some(v) => self@.contains_key(key@) && self@[key@] == v@,
                None => !self@.contains_key(key@),
            },
    {
        match self.find(key) {
            Some(i) => {
                let v = &self.values[i];
                Some(copy_range(v.as_slice(), 0, v.len()))
            },
            None => None,
        }
    }

    fn set(&mut self, key: Vec<u8>, value: Vec<u8>)
        requires
            old(self).wf(),
        ensures
            final(self).wf(),
            final(self)@ == old(self)@.insert(key@, value@),
    {
        let ghost before = *self;
        let ghost kb = byte_views(before.keys@);
        match self.find(key.as_slice()) {
            Some(i) => {
                self.values.set(i, value);
                proof {
                    assert forall|k: Seq<u8>| self@.contains_key(k) implies #[trigger] self@[k]
                        == before@.insert(key@, value@)[k] by {
                        let j = kb.index_of(k);
                        assert(kb[j] == k);
                        if k == key@ {
                            lemma_key_index(kb, i as int);
                        }
                    }
                    assert(self@ =~= before@.insert(key@, value@));
                }
            },
            None => {
                self.keys.push(key);
                self.values.push(value);
                proof {
                    let ka = byte_views(self.keys@);
                    let n = kb.len() as int;
                    assert(ka =~= kb.push(key@));
                    assert forall|a: int, b: int|
                        0 <= a < ka.len() && 0 <= b < ka.len() && a != b implies ka[a]
                        != ka[b] by {
                        if a < n && b < n {
                            assert(kb[a] != kb[b]);
                        } else if a < n {
                            assert(kb.contains(kb[a]));
                        } else {
                            assert(kb.contains(kb[b]));
                        }
                    }
                    assert forall|k: Seq<u8>| ka.contains(k) <==> (k == key@ || kb.contains(
                        k,
                    )) by {
                        if kb.contains(k) {
                            let j = kb.index_of(k);
                            assert(ka[j] == k);
                        }
                        if ka.contains(k) {
                            let j = ka.index_of(k);
                            if j < n {
                                assert(kb[j] == k);
                            }
                        }
                        if k == key@ {
                            assert(ka[n] == k);
                        }
                    }
                    assert forall|k: Seq<u8>| self@.contains_key(k) implies #[trigger] self@[k]
                        == before@.insert(key@, value@)[k] by {
                        let j = ka.index_of(k);
                        assert(ka[j] == k);
                        lemma_key_index(ka, j);
                        if k != key@ {
                            assert(j < n);
                            lemma_key_index(kb, j);
                        } else {
                            lemma_key_index(ka, n);
                        }
                    }
                    assert(self@ =~= before@.insert(key@, value@));
                }
            },
        }
    }

    /// Takes one request: changes the store and returns the datagram to
    /// answer with, if any.
    pub fn handle(&mut self, request: Request) -> (reply: Option<Vec<u8>>)
        requires
            old(self).wf(),
        ensures
            final(self).wf(),
            final(self)@ == kv_step(old(self)@, request@).0,
            match (reply, kv_step(old(self)@, request@).1) {
                (Some(bytes), Some(view)) => bytes@ == view,
                (None, None) => true,
                _ => false,
            },
    {
        match request {
            Request::Insert { key, value } => {
                if !same_bytes(key.as_slice(), "version".as_bytes()) {
                    self.set(key, value);
                }
                None
            },
            Request::Retrieve { key } => {
                if same_bytes(key.as_slice(), "version".as_bytes()) {
                    let text = "Ken's Key-Value Store 1.0\n".as_bytes();
                    Some(copy_range(text, 0, text.len()))
                } else {
                    match self.find(key.as_slice()) {
                        None => None,
                        Some(i) => {
                            let mut reply = key;
                            let ghost asked = reply@;
                            reply.push(0x3d);
                            let value = &self.values[i];
                            let mut j: usize = 0;
                            while j < value.len()
                                invariant
                                    j <= value@.len(),
                                    reply@ == asked + seq![0x3du8] + value@.subrange(0, j as int),
                                decreases value@.len() - j,
                            {
                                reply.push(value[j]);
                                j = j + 1;
                                assert(reply@ =~= asked + seq![0x3du8] + value@.subrange(
                                    0,
                                    j as int,
                                ));
                            }
                            reply.push(0x0a);
                            proof {
                                assert(value@.subrange(0, j as int) =~= value@);
                                assert(reply@ =~= asked + seq![0x3du8] + value@ + seq![0x0au8]);
                            }
                            Some(reply)
                        },
                    }
                }
            },
        }
    }
}

} // verus!
