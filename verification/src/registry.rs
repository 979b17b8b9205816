//! The connection records of the service, by connection identity.

use vstd::prelude::*;
use crate::connection::{fresh, serves, Connection, ConnectionView};

verus! {

/// Whether `conn` is a connected dispatcher that serves `road`.
pub open spec fn is_dispatcher_for(
    conns: Map<u64, ConnectionView>,
    conn: u64,
    road: u16,
) -> bool {
    conns.contains_key(conn) && serves(conns[conn], road)
}

/// Whether `conn` is the dispatcher for `road` with the lowest identity.
pub open spec fn is_lowest_dispatcher_for(
    conns: Map<u64, ConnectionView>,
    conn: u64,
    road: u16,
) -> bool {
    &&& is_dispatcher_for(conns, conn, road)
    &&& forall|other: u64| #[trigger] is_dispatcher_for(conns, other, road) ==> conn <= other
}

/// The dispatcher that a ticket for `road` goes to: of those that serve the
/// road, the one with the lowest identity; `None` when no one serves it.
pub open spec fn dispatcher_for(conns: Map<u64, ConnectionView>, road: u16) -> Option<u64> {
    if exists|conn: u64| #[trigger] is_dispatcher_for(conns, conn, road) {
        Some(choose|conn: u64| is_lowest_dispatcher_for(conns, conn, road))
    } else {
        None
    }
}

/// The lowest dispatcher, where there is one, is the only connection that
/// `dispatcher_for` can name.
pub proof fn lemma_dispatcher_for_is_lowest(
    conns: Map<u64, ConnectionView>,
    conn: u64,
    road: u16,
)
    requires
        is_lowest_dispatcher_for(conns, conn, road),
    ensures
        dispatcher_for(conns, road) == Some(conn),
{
    assert(is_dispatcher_for(conns, conn, road));
    let chosen = choose|c: u64| is_lowest_dispatcher_for(conns, c, road);
    assert(is_lowest_dispatcher_for(conns, chosen, road));
    assert(is_dispatcher_for(conns, chosen, road));
    assert(chosen <= conn && conn <= chosen);
}

/// The records of all connections that are open.
pub struct Registry {
    ids: Vec<u64>,
    records: Vec<Connection>,
}

proof fn lemma_index_of(ids: Seq<u64>, i: int)
    requires
        ids.no_duplicates(),
        0 <= i < ids.len(),
    ensures
        ids.contains(ids[i]),
        ids.index_of(ids[i]) == i,
{
    assert(ids.contains(ids[i]));
    let j = ids.index_of(ids[i]);
    assert(0 <= j < ids.len() && ids[j] == ids[i]);
}

impl View for Registry {
    type V = Map<u64, ConnectionView>;

    closed spec fn view(&self) -> Map<u64, ConnectionView> {
        Map::new(
            |id: u64| self.ids@.contains(id),
            |id: u64| self.records@[self.ids@.index_of(id)]@,
        )
    }
}

impl Registry {
    /// No identity is recorded twice.
    pub closed spec fn wf(&self) -> bool {
        &&& self.ids@.len() == self.records@.len()
        &&& self.ids@.no_duplicates()
    }

    /// A registry without connections.
    pub fn new() -> (r: Registry)
        ensures
            r.wf(),
            r@ == Map::<u64, ConnectionView>::empty(),
    {
        let r = Registry { ids: Vec::new(), records: Vec::new() };
        assert(r@ =~= Map::<u64, ConnectionView>::empty());
        r
    }

    fn find(&self, id: u64) -> (r: Option<usize>)
        requires
            self.wf(),
        ensures
            match r {
                Some(i) => i < self.ids@.len() && self.ids@[i as int] == id && self@.contains_key(
                    id,
                ) && self@[id] == self.records@[i as int]@,
                None => !self.ids@.contains(id) && !self@.contains_key(id),
            },
    {
        let mut i: usize = 0;
        while i < self.ids.len()
            invariant
                self.wf(),
                i <= self.ids@.len(),
                forall|k: int| 0 <= k < i ==> self.ids@[k] != id,
            decreases self.ids@.len() - i,
        {
            if self.ids[i] == id {
                proof {
                    lemma_index_of(self.ids@, i as int);
                }
                return Some(i);
            }
            i = i + 1;
        }
        None
    }

    /// Whether `id` is recorded.
    pub fn contains(&self, id: u64) -> (b: bool)
        requires
            self.wf(),
        ensures
            b == self@.contains_key(id),
    {
        self.find(id).is_some()
    }

    /// The record of `id`, if there is one.
    pub fn get(&self, id: u64) -> (r: Option<&Connection>)
        requires
            self.wf(),
        ensures
            match r {
                Some(c) => self@.contains_key(id) && self@[id] == c@,
                None => !self@.contains_key(id),
            },
    {
        match self.find(id) {
            Some(i) => Some(&self.records[i]),
            None => None,
        }
    }

    /// Records `record` for `id`, in place of what was recorded for it.
    pub fn put(&mut self, id: u64, record: Connection)
        requires
            old(self).wf(),
        ensures
            final(self).wf(),
            final(self)@ == old(self)@.insert(id, record@),
    {
        let ghost before = *self;
        match self.find(id) {
            Some(i) => {
                self.records.set(i, record);
                proof {
                    assert forall|k: u64| self@.contains_key(k) implies #[trigger] self@[k]
                        == before@.insert(id, record@)[k] by {
                        let j = self.ids@.index_of(k);
                        assert(self.ids@[j] == k);
                        if k == id {
                            lemma_index_of(self.ids@, i as int);
                        }
                    }
                    assert(self@ =~= before@.insert(id, record@));
                }
            },
            None => {
                self.ids.push(id);
                self.records.push(record);
                proof {
                    let n = before.ids@.len() as int;
                    assert(self.ids@[n] == id);
                    assert forall|a: int, b: int|
                        0 <= a < self.ids@.len() && 0 <= b < self.ids@.len() && a != b implies self.ids@[a]
                        != self.ids@[b] by {
                        if a < n && b < n {
                            assert(before.ids@[a] != before.ids@[b]);
                        } else if a < n {
                            assert(before.ids@.contains(before.ids@[a]));
                        } else {
                            assert(before.ids@.contains(before.ids@[b]));
                        }
                    }
                    assert forall|k: u64| self.ids@.contains(k) <==> (k == id
                        || before.ids@.contains(k)) by {
                        if before.ids@.contains(k) {
                            let j = before.ids@.index_of(k);
                            assert(self.ids@[j] == k);
                        }
                        if self.ids@.contains(k) {
                            let j = self.ids@.index_of(k);
                            if j < n {
                                assert(before.ids@[j] == k);
                            }
                        }
                    }
                    assert forall|k: u64| self@.contains_key(k) implies #[trigger] self@[k]
                        == before@.insert(id, record@)[k] by {
                        let j = self.ids@.index_of(k);
                        assert(self.ids@[j] == k);
                        lemma_index_of(self.ids@, j);
                        if k != id {
                            assert(j < n);
                            lemma_index_of(before.ids@, j);
                        } else {
                            lemma_index_of(self.ids@, n);
                        }
                    }
                    assert(self@ =~= before@.insert(id, record@));
                }
            },
        }
    }

    /// Records a connection that was just accepted, unless `id` is recorded
    /// already.
    pub fn open(&mut self, id: u64)
        requires
            old(self).wf(),
        ensures
            final(self).wf(),
            final(self)@ == if old(self)@.contains_key(id) {
                old(self)@
            } else {
                old(self)@.insert(id, fresh())
            },
    {
        if !self.contains(id) {
            self.put(id, Connection::new());
        }
    }

    /// Takes the record of `id` out of the registry.
    pub fn take(&mut self, id: u64) -> (r: Option<Connection>)
        requires
            old(self).wf(),
        ensures
            final(self).wf(),
            final(self)@ == old(self)@.remove(id),
            match r {
                Some(c) => old(self)@.contains_key(id) && old(self)@[id] == c@,
                None => !old(self)@.contains_key(id),
            },
    {
        let ghost before = *self;
        match self.find(id) {
            Some(i) => {
                self.ids.remove(i);
                let record = self.records.remove(i);
                proof {
                    let n = self.ids@.len() as int;
                    assert forall|a: int| 0 <= a < n implies #[trigger] self.ids@[a]
                        == before.ids@[if a < i {
                        a
                    } else {
                        a + 1
                    }] by {}
                    assert forall|a: int, b: int| 0 <= a < n && 0 <= b < n && a != b implies self.ids@[a]
                        != self.ids@[b] by {}
                    assert forall|k: u64| self.ids@.contains(k) <==> (k != id
                        && before.ids@.contains(k)) by {
                        if self.ids@.contains(k) {
                            let j = self.ids@.index_of(k);
                            assert(self.ids@[j] == k);
                            let j0 = if j < i {
                                j
                            } else {
                                j + 1
                            };
                            assert(before.ids@[j0] == k);
                        }
                        if k != id && before.ids@.contains(k) {
                            let j0 = before.ids@.index_of(k);
                            assert(before.ids@[j0] == k);
                            let j = if j0 < i {
                                j0
                            } else {
                                j0 - 1
                            };
                            assert(self.ids@[j] == k);
                        }
                    }
                    assert forall|k: u64| self@.contains_key(k) implies #[trigger] self@[k]
                        == before@.remove(id)[k] by {
                        let j = self.ids@.index_of(k);
                        assert(self.ids@[j] == k);
                        let j0 = if j < i {
                            j
                        } else {
                            j + 1
                        };
                        assert(before.ids@[j0] == k);
                        lemma_index_of(before.ids@, j0);
                        assert(self.records@[j] == before.records@[j0]);
                    }
                    assert(self@ =~= before@.remove(id));
                }
                Some(record)
            },
            None => {
                assert(self@ =~= before@.remove(id));
                None
            },
        }
    }

    /// The dispatcher that a ticket for `road` goes to.
    pub fn dispatcher(&self, road: u16) -> (r: Option<u64>)
        requires
            self.wf(),
        ensures
            r == dispatcher_for(self@, road),
    {
        let mut best: Option<u64> = None;
        let mut i: usize = 0;
        while i < self.ids.len()
            invariant
                self.wf(),
                i <= self.ids@.len(),
                match best {
                    Some(b) => {
                        &&& exists|k: int|
                            0 <= k < i && #[trigger] self.ids@[k] == b && serves(
                                self.records@[k]@,
                                road,
                            )
                        &&& forall|k: int|
                            0 <= k < i && serves(#[trigger] self.records@[k]@, road) ==> b
                                <= self.ids@[k]
                    },
                    None => forall|k: int|
                        0 <= k < i ==> !serves(#[trigger] self.records@[k]@, road),
                },
            decreases self.ids@.len() - i,
        {
            if self.records[i].serves_road(road) {
                let id: u64 = self.ids[i];
                best =
                match best {
                    Some(b) => if id < b {
                        Some(id)
                    } else {
                        Some(b)
                    },
                    None => Some(id),
                };
            }
            i = i + 1;
        }
        proof {
            assert forall|c: u64| #[trigger]
                is_dispatcher_for(self@, c, road) implies exists|k: int|
                0 <= k < self.ids@.len() && #[trigger] self.ids@[k] == c && serves(
                    self.records@[k]@,
                    road,
                ) by {
                let k = self.ids@.index_of(c);
                assert(self.ids@[k] == c);
            }
            match best {
                Some(b) => {
                    let k = choose|k: int|
                        0 <= k < self.ids@.len() && #[trigger] self.ids@[k] == b && serves(
                            self.records@[k]@,
                            road,
                        );
                    lemma_index_of(self.ids@, k);
                    assert(is_dispatcher_for(self@, b, road));
                    assert forall|other: u64| #[trigger]
                        is_dispatcher_for(self@, other, road) implies b <= other by {
                        let j = self.ids@.index_of(other);
                        assert(self.ids@[j] == other);
                        assert(serves(self.records@[j]@, road));
                    }
                    lemma_dispatcher_for_is_lowest(self@, b, road);
                },
                None => {
                    assert forall|c: u64| !#[trigger] is_dispatcher_for(self@, c, road) by {
                        if is_dispatcher_for(self@, c, road) {
                            let j = self.ids@.index_of(c);
                            assert(self.ids@[j] == c);
                            assert(!serves(self.records@[j]@, road));
                        }
                    }
                },
            }
        }
        best
    }
}

} // verus!
