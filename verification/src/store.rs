//! The shared state store: the latest report of every connection.

use crate::message::{attributed, RemoteState, State};
use std::collections::HashMap;
use vstd::prelude::*;
use vstd::std_specs::iter::IteratorSpec;

verus! {

broadcast use vstd::std_specs::hash::group_hash_axioms;

/// `list` holds the report of each connection in `m` exactly once, each under
/// the identifier of its connection, in some order.
pub open spec fn lists(list: Seq<RemoteState>, m: Map<usize, State>) -> bool {
    &&& m.dom().finite()
    &&& list.len() == m.len()
    &&& forall|i: int| 0 <= i < list.len() ==> m.contains_key((#[trigger] list[i]).id)
    &&& forall|i: int|
        0 <= i < list.len() ==> (#[trigger] list[i]) == attributed(list[i].id, m[list[i].id])
    &&& distinct_ids(list)
    &&& forall|k: usize| #[trigger] m.contains_key(k) ==> list.contains(attributed(k, m[k]))
}

/// No two states of `list` belong to the same connection.
pub open spec fn distinct_ids(list: Seq<RemoteState>) -> bool {
    forall|i: int, j: int|
        0 <= i < j < list.len() ==> (#[trigger] list[i]).id != (#[trigger] list[j]).id
}

/// A list with one state for each connection of `m`, and no other, is as
/// long as `m` is large.
pub proof fn lemma_listing_len(list: Seq<RemoteState>, m: Map<usize, State>)
    requires
        distinct_ids(list),
        forall|i: int| 0 <= i < list.len() ==> m.contains_key((#[trigger] list[i]).id),
        forall|k: usize| #[trigger]
            m.contains_key(k) ==> exists|i: int|
                0 <= i < list.len() && (#[trigger] list[i]).id == k,
    ensures
        m.dom().finite(),
        list.len() == m.len(),
{
    let ids = Seq::new(list.len(), |i: int| list[i].id);
    assert(ids.no_duplicates());
    assert forall|k: usize| ids.to_set().contains(k) <==> m.dom().contains(k) by {
        if ids.to_set().contains(k) {
            let i = choose|i: int| 0 <= i < ids.len() && ids[i] == k;
            assert(m.contains_key(list[i].id));
        }
        if m.dom().contains(k) {
            let i = choose|i: int| 0 <= i < list.len() && (#[trigger] list[i]).id == k;
            assert(ids[i] == k);
        }
    }
    assert(ids.to_set() =~= m.dom());
    ids.unique_seq_to_set();
    vstd::seq_lib::seq_to_set_is_finite(ids);
}

/// Maps a connection identifier to that connection's last report.
pub struct StateStore {
    states: HashMap<usize, State>,
}

impl StateStore {
    /// The store as a map from identifier to the last report.
    pub closed spec fn view(&self) -> Map<usize, State> {
        self.states@
    }

    /// An empty store.
    pub fn new() -> (store: Self)
        ensures
            store@ == Map::<usize, State>::empty(),
    {
        StateStore { states: HashMap::new() }
    }

    /// The number of connections with a report on file.
    pub fn len(&self) -> (n: usize)
        ensures
            n == self@.len(),
            self@.dom().finite(),
    {
        self.states.len()
    }

    pub fn is_empty(&self) -> (empty: bool)
        ensures
            empty == (self@.len() == 0),
            empty == (self@ == Map::<usize, State>::empty()),
            self@.dom().finite(),
    {
        let n = self.states.len();
        proof {
            if n == 0 {
                assert(self@.dom() =~= Set::<usize>::empty());
                assert(self@ =~= Map::<usize, State>::empty());
            }
        }
        n == 0
    }

    /// The state on file for `id`, if there is one.
    pub fn get(&self, id: usize) -> (found: Option<RemoteState>)
        ensures
            found == (if self@.contains_key(id) {
                Some(attributed(id, self@[id]))
            } else {
                None
            }),
    {
        match self.states.get(&id) {
            Some(state) => Some(RemoteState { id, position: state.pos, rotation: state.r }),
            None => None,
        }
    }

    /// Files `state` as the latest report of `id`, replacing any earlier one.
    pub fn upsert(&mut self, id: usize, state: State)
        ensures
            final(self)@ == old(self)@.insert(id, state),
    {
        self.states.insert(id, state);
    }

    /// Drops the entry of `id`. Where there is none, nothing changes.
    pub fn remove(&mut self, id: usize)
        ensures
            final(self)@ == old(self)@.remove(id),
            !old(self)@.contains_key(id) ==> final(self)@ == old(self)@,
    {
        self.states.remove(&id);
        proof {
            if !old(self)@.contains_key(id) {
                assert(old(self)@.remove(id) =~= old(self)@);
            }
        }
    }

    /// A copy of every state on file, as of this moment.
    pub fn snapshot(&self) -> (list: Vec<RemoteState>)
        ensures
            lists(list@, self@),
    {
        let mut list: Vec<RemoteState> = Vec::new();
        let ghost all = self.states.keys().remaining();
        proof {
            assert forall|i: int| 0 <= i < all.len() implies self@.contains_key(
                *(#[trigger] all[i]),
            ) by {
                assert(all.unref()[i] == *all[i]);
                assert(all.unref().to_set().contains(*all[i]));
            }
        }
        for k in it: self.states.keys()
            invariant
                it.seq() == all,
                forall|i: int| 0 <= i < all.len() ==> self@.contains_key(*(#[trigger] all[i])),
                list.len() == it.index(),
                forall|i: int|
                    0 <= i < list.len() ==> (#[trigger] list[i]) == attributed(
                        *all[i],
                        self@[*all[i]],
                    ),
        {
            match self.states.get(k) {
                Some(state) => {
                    list.push(RemoteState { id: *k, position: state.pos, rotation: state.r });
                },
                None => {
                    assert(false);
                },
            }
        }
        proof {
            assert forall|i: int, j: int| 0 <= i < j < list.len() implies (#[trigger] list[i]).id
                != (#[trigger] list[j]).id by {
                assert(all[i] != all[j]);
            }
            assert forall|k: usize| #[trigger] self@.contains_key(k) implies list@.contains(
                attributed(k, self@[k]),
            ) by {
                assert(all.unref().to_set().contains(k));
                let i = choose|i: int| 0 <= i < all.unref().len() && all.unref()[i] == k;
                assert(list@[i] == attributed(k, self@[k]));
            }
        }
        list
    }
}

} // verus!
