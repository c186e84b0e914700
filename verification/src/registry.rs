//! The connection registry: who is connected, and how to reach them.

use std::collections::HashMap;
use vstd::prelude::*;
use vstd::std_specs::iter::IteratorSpec;

verus! {

broadcast use vstd::std_specs::hash::group_hash_axioms;

/// `ids` names each member of `members` exactly once, in some order.
pub open spec fn enumerates(ids: Seq<usize>, members: Set<usize>) -> bool {
    &&& ids.no_duplicates()
    &&& ids.to_set() == members
}

/// Maps the identifier of each open, welcomed connection to the handle of its
/// outbound channel. The registry never looks inside a handle.
pub struct Registry<C> {
    channels: HashMap<usize, C>,
}

impl<C> Registry<C> {
    /// The registry as a map from identifier to channel handle.
    pub closed spec fn view(&self) -> Map<usize, C> {
        self.channels@
    }

    /// An empty registry.
    pub fn new() -> (registry: Self)
        ensures
            registry@ == Map::<usize, C>::empty(),
    {
        Registry { channels: HashMap::new() }
    }

    /// The number of registered connections.
    pub fn len(&self) -> (n: usize)
        ensures
            n == self@.len(),
            self@.dom().finite(),
    {
        self.channels.len()
    }

    pub fn is_empty(&self) -> (empty: bool)
        ensures
            empty == (self@.len() == 0),
            empty == (self@ == Map::<usize, C>::empty()),
            self@.dom().finite(),
    {
        let n = self.channels.len();
        proof {
            if n == 0 {
                assert(self@.dom() =~= Set::<usize>::empty());
                assert(self@ =~= Map::<usize, C>::empty());
            }
        }
        n == 0
    }

    /// Whether `id` is registered.
    pub fn contains(&self, id: usize) -> (found: bool)
        ensures
            found == self@.contains_key(id),
    {
        self.channels.contains_key(&id)
    }

    /// The channel of `id`, if it is registered.
    pub fn get(&self, id: usize) -> (found: Option<&C>)
        ensures
            (match found {
                Some(channel) => self@.contains_key(id) && self@[id] == *channel,
                None => !self@.contains_key(id),
            }),
    {
        self.channels.get(&id)
    }

    /// Registers `channel` under `id` and hands back the channel that was
    /// registered under it before, if any.
    pub fn insert(&mut self, id: usize, channel: C) -> (previous: Option<C>)
        ensures
            final(self)@ == old(self)@.insert(id, channel),
            (match previous {
                Some(channel) => old(self)@.contains_key(id) && old(self)@[id] == channel,
                None => !old(self)@.contains_key(id),
            }),
    {
        self.channels.insert(id, channel)
    }

    /// Takes `id` out and hands back its channel. Where `id` is not
    /// registered, nothing changes and `None` comes back.
    pub fn remove(&mut self, id: usize) -> (removed: Option<C>)
        ensures
            final(self)@ == old(self)@.remove(id),
            !old(self)@.contains_key(id) ==> final(self)@ == old(self)@,
            (match removed {
                Some(channel) => old(self)@.contains_key(id) && old(self)@[id] == channel,
                None => !old(self)@.contains_key(id),
            }),
    {
        let removed = self.channels.remove(&id);
        proof {
            if !old(self)@.contains_key(id) {
                assert(old(self)@.remove(id) =~= old(self)@);
            }
        }
        removed
    }

    /// The identifiers of all registered connections.
    pub fn ids(&self) -> (ids: Vec<usize>)
        ensures
            enumerates(ids@, self@.dom()),
            ids.len() == self@.len(),
    {
        let mut ids: Vec<usize> = Vec::new();
        let ghost all = self.channels.keys().remaining();
        for k in it: self.channels.keys()
            invariant
                it.seq() == all,
                ids.len() == it.index(),
                forall|i: int| 0 <= i < ids.len() ==> (#[trigger] ids[i]) == *all[i],
        {
            ids.push(*k);
        }
        proof {
            assert(ids@ =~= all.unref());
        }
        ids
    }

    /// Every registered connection with its channel, as of this moment.
    pub fn snapshot(&self) -> (pairs: Vec<(usize, &C)>)
        ensures
            pairs.len() == self@.len(),
            forall|i: int|
                0 <= i < pairs.len() ==> self@.contains_key((#[trigger] pairs[i]).0),
            forall|i: int| 0 <= i < pairs.len() ==> *(#[trigger] pairs[i]).1 == self@[pairs[i].0],
            forall|i: int, j: int|
                0 <= i < j < pairs.len() ==> (#[trigger] pairs[i]).0 != (#[trigger] pairs[j]).0,
            forall|k: usize| #[trigger]
                self@.contains_key(k) ==> exists|i: int|
                    0 <= i < pairs.len() && (#[trigger] pairs[i]).0 == k,
    {
        let mut pairs: Vec<(usize, &C)> = Vec::new();
        let ghost all = self.channels.keys().remaining();
        proof {
            assert forall|i: int| 0 <= i < all.len() implies self@.contains_key(
                *(#[trigger] all[i]),
            ) by {
                assert(all.unref()[i] == *all[i]);
                assert(all.unref().to_set().contains(*all[i]));
            }
        }
        for k in it: self.channels.keys()
            invariant
                it.seq() == all,
                forall|i: int| 0 <= i < all.len() ==> self@.contains_key(*(#[trigger] all[i])),
                pairs.len() == it.index(),
                forall|i: int| 0 <= i < pairs.len() ==> (#[trigger] pairs[i]).0 == *all[i],
                forall|i: int|
                    0 <= i < pairs.len() ==> *(#[trigger] pairs[i]).1 == self@[*all[i]],
        {
            match self.channels.get(k) {
                Some(channel) => {
                    pairs.push((*k, channel));
                },
                None => {
                    assert(false);
                },
            }
        }
        proof {
            assert forall|i: int, j: int| 0 <= i < j < pairs.len() implies (#[trigger] pairs[i]).0
                != (#[trigger] pairs[j]).0 by {
                assert(all[i] != all[j]);
            }
            assert forall|k: usize| #[trigger] self@.contains_key(k) implies exists|i: int|
                0 <= i < pairs.len() && (#[trigger] pairs[i]).0 == k by {
                assert(all.unref().to_set().contains(k));
                let i = choose|i: int| 0 <= i < all.unref().len() && all.unref()[i] == k;
                assert(pairs[i].0 == k);
            }
        }
        pairs
    }
}

} // verus!
