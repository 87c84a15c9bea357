//! The session registry: the hub's authoritative record of who is
//! connected. One record per session identifier; join upserts, disconnect
//! removes. Iteration order is insertion order, which also fixes the order
//! in which fan-out envelopes are produced.

use vstd::prelude::*;

use crate::session::{Session, SessionV};

verus! {

/// No two records carry the same session identifier.
pub open spec fn ids_unique(s: Seq<SessionV>) -> bool {
    forall|i: int, j: int| 0 <= i < j < s.len() ==> s[i].id != s[j].id
}

/// Some record carries the given session identifier.
pub open spec fn contains_id(s: Seq<SessionV>, id: u128) -> bool {
    exists|i: int| 0 <= i < s.len() && s[i].id == id
}

/// The index of the record carrying the given identifier (unique when
/// `ids_unique` holds).
pub open spec fn index_of_id(s: Seq<SessionV>, id: u128) -> int {
    choose|i: int| 0 <= i < s.len() && s[i].id == id
}

/// With unique identifiers, the index of a record whose identifier matches
/// is the index `index_of_id` picks.
pub proof fn lemma_unique_index(s: Seq<SessionV>, id: u128, i: int)
    requires
        ids_unique(s),
        0 <= i < s.len(),
        s[i].id == id,
    ensures
        index_of_id(s, id) == i,
{
    assert(contains_id(s, id));
    let k = index_of_id(s, id);
    assert(0 <= k < s.len() && s[k].id == id);
    if k < i {
        assert(s[k].id != s[i].id);
    } else if k > i {
        assert(s[i].id != s[k].id);
    }
}

/// The hub's record of connected sessions, in insertion order.
pub struct SessionRegistry {
    pub items: Vec<Session>,
}

impl View for SessionRegistry {
    type V = Seq<SessionV>;

    open spec fn view(&self) -> Seq<SessionV> {
        self.items.deep_view()
    }
}

impl SessionRegistry {
    /// Well-formed: session identifiers are unique.
    pub open spec fn wf(&self) -> bool {
        ids_unique(self@)
    }

    /// An empty registry.
    pub fn new() -> (r: Self)
        ensures
            r@ == Seq::<SessionV>::empty(),
            r.wf(),
    {
        let r = SessionRegistry { items: Vec::new() };
        proof {
            assert(r@ =~= Seq::<SessionV>::empty());
        }
        r
    }

    /// How many sessions are registered.
    pub fn len(&self) -> (r: usize)
        ensures
            r == self@.len(),
    {
        self.items.len()
    }

    /// Whether the given identifier is registered.
    pub fn contains(&self, id: u128) -> (r: bool)
        ensures
            r == contains_id(self@, id),
    {
        let mut i: usize = 0;
        while i < self.items.len()
            invariant
                i <= self.items.len(),
                forall|j: int| 0 <= j < i ==> self@[j].id != id,
            decreases self.items.len() - i,
        {
            if self.items[i].id == id {
                proof {
                    assert(self@[i as int].id == id);
                }
                return true;
            }
            i += 1;
        }
        false
    }

    /// Insert a record for the identifier, overwriting in place any record
    /// it already has: re-joining re-announces, it is never rejected.
    /// Returns a copy of the stored record.
    pub fn upsert(&mut self, id: u128, display_name: &str) -> (r: Session)
        requires
            old(self).wf(),
        ensures
            r@ == (SessionV { id, name: display_name@ }),
            contains_id(old(self)@, id) ==> final(self)@ == old(self)@.update(
                index_of_id(old(self)@, id),
                r@,
            ),
            !contains_id(old(self)@, id) ==> final(self)@ == old(self)@.push(r@),
            final(self).wf(),
            contains_id(final(self)@, id),
    {
        let ghost pre = self@;
        let n = self.items.len();
        let mut i: usize = 0;
        while i < n
            invariant
                i <= n == self.items.len(),
                pre == self@,
                pre == old(self)@,
                ids_unique(pre),
                forall|j: int| 0 <= j < i ==> self@[j].id != id,
            decreases n - i,
        {
            if self.items[i].id == id {
                let s = Session::new(id, display_name);
                let r = s.clone();
                proof {
                    assert(pre[i as int].id == id);
                    assert(contains_id(pre, id));
                    lemma_unique_index(pre, id, i as int);
                }
                self.items[i] = s;
                proof {
                    assert(self@ =~= pre.update(i as int, r@));
                    assert forall|m: int, n: int| 0 <= m < n < self@.len() implies self@[m].id
                        != self@[n].id by {
                        assert(pre[m].id != pre[n].id);
                    }
                    assert(self@[i as int].id == id);
                }
                return r;
            }
            i += 1;
        }
        let s = Session::new(id, display_name);
        let r = s.clone();
        self.items.push(s);
        proof {
            assert(!contains_id(pre, id));
            assert(self@ =~= pre.push(r@));
            assert forall|m: int, n: int| 0 <= m < n < self@.len() implies self@[m].id
                != self@[n].id by {
                if n < pre.len() {
                    assert(pre[m].id != pre[n].id);
                } else {
                    assert(self@[m] == pre[m]);
                    assert(self@[n].id == id);
                }
            }
            assert(self@[pre.len() as int].id == id);
        }
        r
    }

    /// Remove the record for the identifier, returning it; an unknown
    /// identifier is a no-op returning nothing.
    pub fn remove(&mut self, id: u128) -> (r: Option<Session>)
        requires
            old(self).wf(),
        ensures
            contains_id(old(self)@, id) ==> {
                &&& r is Some
                &&& r->0@ == old(self)@[index_of_id(old(self)@, id)]
                &&& final(self)@ == old(self)@.remove(index_of_id(old(self)@, id))
            },
            !contains_id(old(self)@, id) ==> r is None && final(self)@ == old(self)@,
            final(self).wf(),
            !contains_id(final(self)@, id),
    {
        let ghost pre = self@;
        let n = self.items.len();
        let mut i: usize = 0;
        while i < n
            invariant
                i <= n == self.items.len(),
                pre == self@,
                pre == old(self)@,
                ids_unique(pre),
                forall|j: int| 0 <= j < i ==> self@[j].id != id,
            decreases n - i,
        {
            if self.items[i].id == id {
                proof {
                    assert(pre[i as int].id == id);
                    assert(contains_id(pre, id));
                    lemma_unique_index(pre, id, i as int);
                }
                let s = self.items.remove(i);
                proof {
                    assert(s@ == pre[i as int]);
                    assert(self@ =~= pre.remove(i as int));
                    assert forall|m: int, n: int| 0 <= m < n < self@.len() implies self@[m].id
                        != self@[n].id by {
                        let m0 = if m < i as int {
                            m
                        } else {
                            m + 1
                        };
                        let n0 = if n < i as int {
                            n
                        } else {
                            n + 1
                        };
                        assert(self@[m] == pre[m0]);
                        assert(self@[n] == pre[n0]);
                        assert(pre[m0].id != pre[n0].id);
                    }
                    assert forall|j: int| 0 <= j < self@.len() implies self@[j].id != id by {
                        if j < i {
                            assert(self@[j] == pre[j]);
                            assert(pre[j].id != pre[i as int].id);
                        } else {
                            assert(self@[j] == pre[j + 1]);
                            assert(pre[i as int].id != pre[j + 1].id);
                        }
                    }
                }
                return Some(s);
            }
            i += 1;
        }
        proof {
            assert(!contains_id(pre, id));
        }
        None
    }

    /// A copy of the record for the identifier, when one is registered.
    pub fn get(&self, id: u128) -> (r: Option<Session>)
        ensures
            contains_id(self@, id) ==> {
                &&& r is Some
                &&& exists|i: int| 0 <= i < self@.len() && self@[i].id == id && r->0@ == self@[i]
            },
            !contains_id(self@, id) ==> r is None,
    {
        let mut i: usize = 0;
        while i < self.items.len()
            invariant
                i <= self.items.len(),
                forall|j: int| 0 <= j < i ==> self@[j].id != id,
            decreases self.items.len() - i,
        {
            if self.items[i].id == id {
                let s = self.items[i].clone();
                proof {
                    let k = i as int;
                    assert(0 <= k < self@.len() && self@[k].id == id && s@ == self@[k]);
                }
                return Some(s);
            }
            i += 1;
        }
        None
    }

    /// A point-in-time copy of every registered session, in insertion
    /// order.
    pub fn snapshot(&self) -> (r: Vec<Session>)
        ensures
            r.deep_view() == self@,
    {
        let mut r: Vec<Session> = Vec::new();
        let mut i: usize = 0;
        while i < self.items.len()
            invariant
                i <= self.items.len(),
                r@.len() == i,
                forall|j: int| 0 <= j < i ==> r@[j]@ == self@[j],
            decreases self.items.len() - i,
        {
            let ghost pre = r@;
            let s = self.items[i].clone();
            proof {
                assert(s@ == self@[i as int]);
            }
            r.push(s);
            proof {
                assert forall|j: int| 0 <= j < i + 1 implies r@[j]@ == self@[j] by {
                    if j < i {
                        assert(r@[j] == pre[j]);
                    }
                }
            }
            i += 1;
        }
        proof {
            assert(r.deep_view() =~= self@);
        }
        r
    }
}

} // verus!
