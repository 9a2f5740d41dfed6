//! The table of pending connections: every socket whose handshake is under
//! way, found by its identifier, walked in the order of the identifiers.

use crate::conn::{ConnView, TcpConn};
use vstd::prelude::*;

verus! {

/// The envelope has learned its peer's identity, and the token is `token`.
pub open spec fn has_token<S>(conn: ConnView<S>, token: Seq<char>) -> bool {
    match conn.peer() {
        Some((learned, _)) => learned == token,
        None => false,
    }
}

/// `id` is the smallest identifier in `table` whose envelope has learned the
/// token `token`.
pub open spec fn first_with_token<S>(
    table: Map<usize, ConnView<S>>,
    token: Seq<char>,
    id: usize,
) -> bool {
    &&& table.contains_key(id)
    &&& has_token(table[id], token)
    &&& forall|other: usize|
        table.contains_key(other) && has_token(#[trigger] table[other], token) ==> id <= other
}

/// No envelope in `table` has learned the token `token`.
pub open spec fn none_with_token<S>(table: Map<usize, ConnView<S>>, token: Seq<char>) -> bool {
    forall|id: usize| table.contains_key(id) ==> !has_token(#[trigger] table[id], token)
}

/// Envelopes by identifier, kept in the order of the identifiers.
pub struct PendingTable<S> {
    conns: Vec<TcpConn<S>>,
}

impl<S> View for PendingTable<S> {
    type V = Map<usize, ConnView<S>>;

    closed spec fn view(&self) -> Map<usize, ConnView<S>> {
        Map::new(|id: usize| self.holds(id), |id: usize| self.conns@[self.slot(id)]@)
    }
}

impl<S> PendingTable<S> {
    /// Every envelope is consistent, and the identifiers rise strictly.
    pub closed spec fn wf(&self) -> bool {
        &&& forall|i: int| 0 <= i < self.conns@.len() ==> (#[trigger] self.conns@[i]).wf()
        &&& forall|i: int, j: int|
            0 <= i < j < self.conns@.len() ==> (#[trigger] self.conns@[i])@.id < (
            #[trigger] self.conns@[j])@.id
    }

    /// Some envelope has the identifier `id`.
    closed spec fn holds(&self, id: usize) -> bool {
        exists|i: int| 0 <= i < self.conns@.len() && (#[trigger] self.conns@[i])@.id == id
    }

    /// Where the envelope with identifier `id` stands.
    closed spec fn slot(&self, id: usize) -> int {
        choose|i: int| 0 <= i < self.conns@.len() && (#[trigger] self.conns@[i])@.id == id
    }

    /// The envelope at place `i` is the one that the view holds under its
    /// identifier.
    proof fn lemma_slot(&self, i: int)
        requires
            self.wf(),
            0 <= i < self.conns@.len(),
        ensures
            self@.contains_key(self.conns@[i]@.id),
            self@[self.conns@[i]@.id] == self.conns@[i]@,
            self.slot(self.conns@[i]@.id) == i,
    {
        let id = self.conns@[i]@.id;
        assert(self.holds(id));
        let k = self.slot(id);
        assert(0 <= k < self.conns@.len() && self.conns@[k]@.id == id);
        if k < i {
            assert(self.conns@[k]@.id < self.conns@[i]@.id);
        }
        if i < k {
            assert(self.conns@[i]@.id < self.conns@[k]@.id);
        }
    }

    /// Every envelope that the view holds stands at some place.
    proof fn lemma_held(&self, id: usize)
        requires
            self.wf(),
            self@.contains_key(id),
        ensures
            0 <= self.slot(id) < self.conns@.len(),
            self.conns@[self.slot(id)]@.id == id,
            self@[id] == self.conns@[self.slot(id)]@,
    {
        assert(self.holds(id));
    }

    /// An empty table.
    pub fn new() -> (table: PendingTable<S>)
        ensures
            table.wf(),
            table@ == Map::<usize, ConnView<S>>::empty(),
    {
        let table = PendingTable { conns: Vec::new() };
        assert(table@ =~= Map::<usize, ConnView<S>>::empty());
        table
    }

    /// The place of the first envelope whose identifier is not below `id`.
    fn lower_bound(&self, id: usize) -> (at: usize)
        requires
            self.wf(),
        ensures
            at <= self.conns@.len(),
            forall|i: int| 0 <= i < at ==> (#[trigger] self.conns@[i])@.id < id,
            forall|i: int| at <= i < self.conns@.len() ==> (#[trigger] self.conns@[i])@.id >= id,
    {
        let mut at: usize = 0;
        while at < self.conns.len()
            invariant
                self.wf(),
                at <= self.conns@.len(),
                forall|i: int| 0 <= i < at ==> (#[trigger] self.conns@[i])@.id < id,
            decreases self.conns@.len() - at,
        {
            if self.conns[at].socket_token() >= id {
                assert forall|i: int| at <= i < self.conns@.len() implies (
                #[trigger] self.conns@[i])@.id >= id by {
                    if at < i {
                        assert(self.conns@[at as int]@.id < self.conns@[i]@.id);
                    }
                }
                return at;
            }
            at = at + 1;
        }
        at
    }

    /// Whether an envelope stands under `id`.
    pub fn contains(&self, id: usize) -> (found: bool)
        requires
            self.wf(),
        ensures
            found == self@.contains_key(id),
    {
        let at = self.lower_bound(id);
        if at < self.conns.len() && self.conns[at].socket_token() == id {
            proof {
                self.lemma_slot(at as int);
            }
            true
        } else {
            proof {
                if self@.contains_key(id) {
                    self.lemma_held(id);
                }
            }
            false
        }
    }

    /// The envelope under `id`.
    pub fn get(&self, id: usize) -> (found: Option<&TcpConn<S>>)
        requires
            self.wf(),
        ensures
            match found {
                Some(conn) => self@.contains_key(id) && conn@ == self@[id] && conn.wf(),
                None => !self@.contains_key(id),
            },
    {
        let at = self.lower_bound(id);
        if at < self.conns.len() && self.conns[at].socket_token() == id {
            proof {
                self.lemma_slot(at as int);
            }
            Some(&self.conns[at])
        } else {
            proof {
                if self@.contains_key(id) {
                    self.lemma_held(id);
                }
            }
            None
        }
    }

    /// Takes the envelope under `id` out of the table.
    pub fn remove(&mut self, id: usize) -> (taken: Option<TcpConn<S>>)
        requires
            old(self).wf(),
        ensures
            final(self).wf(),
            final(self)@ == old(self)@.remove(id),
            match taken {
                Some(conn) => old(self)@.contains_key(id) && conn@ == old(self)@[id] && conn.wf(),
                None => !old(self)@.contains_key(id),
            },
    {
        let at = self.lower_bound(id);
        if at < self.conns.len() && self.conns[at].socket_token() == id {
            let ghost before = *self;
            proof {
                before.lemma_slot(at as int);
            }
            let conn = self.conns.remove(at);
            proof {
                assert forall|other: usize| #[trigger]
                    self@.contains_key(other) == before@.remove(id).contains_key(other) by {
                    if self@.contains_key(other) {
                        self.lemma_held(other);
                        let k = self.slot(other);
                        if k < at {
                            before.lemma_slot(k);
                        } else {
                            before.lemma_slot(k + 1);
                        }
                    }
                    if before@.remove(id).contains_key(other) {
                        before.lemma_held(other);
                        let k = before.slot(other);
                        if k < at {
                            self.lemma_slot(k);
                        } else {
                            self.lemma_slot(k - 1);
                        }
                    }
                }
                assert forall|other: usize| #[trigger] self@.contains_key(other) implies self@[other]
                    == before@.remove(id)[other] by {
                    self.lemma_held(other);
                    let k = self.slot(other);
                    if k < at {
                        before.lemma_slot(k);
                    } else {
                        before.lemma_slot(k + 1);
                    }
                }
                assert(self@ =~= before@.remove(id));
            }
            Some(conn)
        } else {
            proof {
                if self@.contains_key(id) {
                    self.lemma_held(id);
                }
                assert(self@ =~= self@.remove(id));
            }
            None
        }
    }

    /// Puts `conn` under its identifier, in place of the envelope that stood
    /// there, if any.
    pub fn insert(&mut self, conn: TcpConn<S>)
        requires
            old(self).wf(),
            conn.wf(),
        ensures
            final(self).wf(),
            final(self)@ == old(self)@.insert(conn@.id, conn@),
    {
        let id = conn.socket_token();
        let at = self.lower_bound(id);
        let ghost before = *self;
        let ghost added = conn@;
        if at < self.conns.len() && self.conns[at].socket_token() == id {
            let _ = self.conns.remove(at);
        }
        let ghost middle = self.conns@;
        self.conns.insert(at, conn);
        proof {
            assert(self.wf());
            self.lemma_slot(at as int);
            let shift: int = if before.conns@.len() == middle.len() { 1 } else { 0 };
            assert forall|other: usize| #[trigger]
                self@.contains_key(other) == before@.insert(id, added).contains_key(other) by {
                if self@.contains_key(other) && other != id {
                    self.lemma_held(other);
                    let k = self.slot(other);
                    if k < at {
                        before.lemma_slot(k);
                    } else {
                        before.lemma_slot(k - shift);
                    }
                }
                if before@.contains_key(other) && other != id {
                    before.lemma_held(other);
                    let k = before.slot(other);
                    if k < at {
                        self.lemma_slot(k);
                    } else {
                        self.lemma_slot(k + shift);
                    }
                }
            }
            assert forall|other: usize| #[trigger] self@.contains_key(other) implies self@[other]
                == before@.insert(id, added)[other] by {
                if other != id {
                    self.lemma_held(other);
                    let k = self.slot(other);
                    if k < at {
                        before.lemma_slot(k);
                    } else {
                        before.lemma_slot(k - shift);
                    }
                }
            }
            assert(self@ =~= before@.insert(id, added));
        }
    }

    /// The smallest identifier whose envelope has learned the token `token`.
    pub fn find_token(&self, token: &String) -> (found: Option<usize>)
        requires
            self.wf(),
        ensures
            match found {
                Some(id) => first_with_token(self@, token@, id),
                None => none_with_token(self@, token@),
            },
    {
        let mut at: usize = 0;
        while at < self.conns.len()
            invariant
                self.wf(),
                at <= self.conns@.len(),
                forall|i: int| 0 <= i < at ==> !has_token((#[trigger] self.conns@[i])@, token@),
            decreases self.conns@.len() - at,
        {
            let conn = &self.conns[at];
            let matched = match conn.conn_value() {
                Some(peer) => peer.token == *token,
                None => false,
            };
            if matched {
                let id = conn.socket_token();
                proof {
                    self.lemma_slot(at as int);
                    assert forall|other: usize|
                        self@.contains_key(other) && has_token(
                            #[trigger] self@[other],
                            token@,
                        ) implies id <= other by {
                        self.lemma_held(other);
                        let k = self.slot(other);
                        if k < at {
                            assert(!has_token(self.conns@[k]@, token@));
                        } else if k > at {
                            assert(self.conns@[at as int]@.id < self.conns@[k]@.id);
                        }
                    }
                }
                return Some(id);
            }
            at = at + 1;
        }
        proof {
            assert forall|id: usize| self@.contains_key(id) implies !has_token(
                #[trigger] self@[id],
                token@,
            ) by {
                self.lemma_held(id);
            }
        }
        None
    }
}

} // verus!
