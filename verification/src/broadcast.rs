//! What goes out to whom: the periodic update round and the one-off
//! announcements.

use crate::message::{attributed, others, RemoteState, ServerMessage, ServerMessageView, State};
use crate::registry::{enumerates, Registry};
use crate::store::{distinct_ids, lemma_listing_len, lists};
use vstd::prelude::*;

verus! {

/// The time between two rounds of the update loop, in milliseconds.
pub const UPDATE_INTERVAL_MILLIS: u64 = 100;

/// One message, to be put on the outbound channel of the connection `to`.
#[derive(Debug, PartialEq, Eq)]
pub struct Delivery {
    pub to: usize,
    pub message: ServerMessage,
}

/// `deliveries` holds exactly one message for each member of `recipients`,
/// namely `message(id)` for the recipient `id`, and nothing for anyone else.
pub open spec fn one_each(
    deliveries: Seq<Delivery>,
    recipients: Set<usize>,
    message: spec_fn(usize) -> ServerMessageView,
) -> bool {
    &&& recipients.finite()
    &&& deliveries.len() == recipients.len()
    &&& forall|i: int|
        0 <= i < deliveries.len() ==> recipients.contains((#[trigger] deliveries[i]).to)
    &&& forall|i: int|
        0 <= i < deliveries.len() ==> (#[trigger] deliveries[i]).message@ == message(
            deliveries[i].to,
        )
    &&& forall|i: int, j: int|
        0 <= i < j < deliveries.len() ==> (#[trigger] deliveries[i]).to != (
        #[trigger] deliveries[j]).to
    &&& forall|id: usize| #[trigger]
        recipients.contains(id) ==> exists|i: int|
            0 <= i < deliveries.len() && (#[trigger] deliveries[i]).to == id
}

/// The update that the connection `id` is owed when the store holds `snapshot`.
pub open spec fn update_for(snapshot: Seq<RemoteState>, id: usize) -> ServerMessageView {
    ServerMessageView::Update(others(snapshot, id))
}

/// The states in `snapshot` of every connection but `id`, in the order of
/// `snapshot`.
pub fn others_of(snapshot: &Vec<RemoteState>, id: usize) -> (rest: Vec<RemoteState>)
    ensures
        rest@ == others(snapshot@, id),
{
    let mut rest: Vec<RemoteState> = Vec::new();
    let mut i: usize = 0;
    proof {
        reveal(Seq::filter);
        assert(snapshot@.take(0) =~= Seq::<RemoteState>::empty());
    }
    while i < snapshot.len()
        invariant
            i <= snapshot.len(),
            rest@ == others(snapshot@.take(i as int), id),
        decreases snapshot.len() - i,
    {
        let state = snapshot[i];
        proof {
            let seen = snapshot@.take(i as int);
            assert(snapshot@.take(i + 1) =~= seen.push(state));
            seen.lemma_filter_push(state, |s: RemoteState| s.id != id);
        }
        if state.id != id {
            rest.push(state);
        }
        i += 1;
    }
    proof {
        assert(snapshot@.take(snapshot.len() as int) =~= snapshot@);
    }
    rest
}

/// Leaving out the states of `id` keeps every other state, adds none, and
/// keeps the connections of the rest distinct.
pub proof fn lemma_others(all: Seq<RemoteState>, id: usize)
    ensures
        forall|s: RemoteState| #[trigger]
            others(all, id).contains(s) <==> all.contains(s) && s.id != id,
        distinct_ids(all) ==> distinct_ids(others(all, id)),
    decreases all.len(),
{
    reveal(Seq::filter);
    if all.len() > 0 {
        let front = all.drop_last();
        let last = all.last();
        lemma_others(front, id);
        assert(all =~= front.push(last));
        front.lemma_filter_push(last, |s: RemoteState| s.id != id);
        let kept = others(front, id);
        assert forall|s: RemoteState| #[trigger]
            others(all, id).contains(s) <==> all.contains(s) && s.id != id by {
            if others(all, id).contains(s) {
                let i = choose|i: int| 0 <= i < others(all, id).len() && others(all, id)[i] == s;
                if i < kept.len() {
                    assert(kept.contains(kept[i]));
                    let k = choose|k: int| 0 <= k < front.len() && front[k] == s;
                    assert(all[k] == s);
                } else {
                    assert(all[all.len() - 1] == s);
                }
            }
            if all.contains(s) && s.id != id {
                let k = choose|k: int| 0 <= k < all.len() && all[k] == s;
                if k < front.len() {
                    assert(front[k] == s);
                    assert(front.contains(s));
                    assert(kept.contains(s));
                    let i = choose|i: int| 0 <= i < kept.len() && kept[i] == s;
                    assert(others(all, id)[i] == s);
                } else {
                    assert(others(all, id)[kept.len() as int] == s);
                }
            }
        }
        if distinct_ids(all) {
            assert forall|i: int, j: int| 0 <= i < j < front.len() implies (#[trigger] front[i]).id
                != (#[trigger] front[j]).id by {
                assert(all[i].id != all[j].id);
            }
            assert forall|i: int, j: int| 0 <= i < j < others(all, id).len() implies (
            #[trigger] others(all, id)[i]).id != (#[trigger] others(all, id)[j]).id by {
                if j < kept.len() {
                    assert(kept[i].id != kept[j].id);
                } else {
                    assert(kept.contains(kept[i]));
                    let k = choose|k: int| 0 <= k < front.len() && front[k] == kept[i];
                    assert(all[k].id != all[all.len() - 1].id);
                }
            }
        }
    }
}

/// Where `snapshot` lists the store, the update owed to `to` lists the store
/// without `to`: the latest report of every other connection, once each, and
/// nothing of `to` itself.
pub proof fn update_lists_the_others(
    snapshot: Seq<RemoteState>,
    states: Map<usize, State>,
    to: usize,
)
    requires
        lists(snapshot, states),
    ensures
        lists(others(snapshot, to), states.remove(to)),
        forall|i: int|
            0 <= i < others(snapshot, to).len() ==> (#[trigger] others(snapshot, to)[i]).id != to,
{
    let rest = others(snapshot, to);
    let m = states.remove(to);
    lemma_others(snapshot, to);
    assert forall|i: int| 0 <= i < rest.len() implies (#[trigger] rest[i]).id != to
        && m.contains_key(rest[i].id) && rest[i] == attributed(rest[i].id, m[rest[i].id]) by {
        assert(rest.contains(rest[i]));
        let k = choose|k: int| 0 <= k < snapshot.len() && snapshot[k] == rest[i];
        assert(states.contains_key(snapshot[k].id));
    }
    assert forall|k: usize| #[trigger] m.contains_key(k) implies rest.contains(
        attributed(k, m[k]),
    ) by {
        assert(states.contains_key(k));
    }
    assert forall|k: usize| #[trigger] m.contains_key(k) implies exists|i: int|
        0 <= i < rest.len() && (#[trigger] rest[i]).id == k by {
        let s = attributed(k, m[k]);
        assert(rest.contains(s));
        let i = choose|i: int| 0 <= i < rest.len() && rest[i] == s;
        assert(rest[i].id == k);
    }
    lemma_listing_len(rest, m);
}

/// The members of `members` that a message goes to when `exclude` is left out.
pub open spec fn all_but(members: Set<usize>, exclude: Option<usize>) -> Set<usize> {
    match exclude {
        Some(id) => members.remove(id),
        None => members,
    }
}

/// Deliveries that go down a list of distinct recipients, one each, are one
/// delivery for each member of the set that the list enumerates.
proof fn lemma_one_each(
    deliveries: Seq<Delivery>,
    ids: Seq<usize>,
    recipients: Set<usize>,
    message: spec_fn(usize) -> ServerMessageView,
)
    requires
        enumerates(ids, recipients),
        deliveries.len() == ids.len(),
        forall|i: int| 0 <= i < ids.len() ==> (#[trigger] deliveries[i]).to == ids[i],
        forall|i: int|
            0 <= i < ids.len() ==> (#[trigger] deliveries[i]).message@ == message(ids[i]),
    ensures
        one_each(deliveries, recipients, message),
{
    ids.unique_seq_to_set();
    vstd::seq_lib::seq_to_set_is_finite(ids);
    assert forall|i: int| 0 <= i < deliveries.len() implies recipients.contains(
        (#[trigger] deliveries[i]).to,
    ) by {
        assert(ids.to_set().contains(ids[i]));
    }
    assert forall|id: usize| #[trigger] recipients.contains(id) implies exists|i: int|
        0 <= i < deliveries.len() && (#[trigger] deliveries[i]).to == id by {
        assert(ids.to_set().contains(id));
        let i = choose|i: int| 0 <= i < ids.len() && ids[i] == id;
        assert(deliveries[i].to == id);
    }
}

/// `ids` without `exclude`, in the same order.
fn without(ids: Vec<usize>, exclude: Option<usize>) -> (kept: Vec<usize>)
    requires
        ids@.no_duplicates(),
    ensures
        enumerates(kept@, all_but(ids@.to_set(), exclude)),
{
    let ghost members = ids@.to_set();
    match exclude {
        None => ids,
        Some(gone) => {
            let mut kept: Vec<usize> = Vec::new();
            let ghost mut from: Seq<int> = Seq::empty();
            let mut i: usize = 0;
            while i < ids.len()
                invariant
                    i <= ids.len(),
                    ids@.no_duplicates(),
                    from.len() == kept.len(),
                    forall|j: int| 0 <= j < kept.len() ==> 0 <= #[trigger] from[j] < i,
                    forall|j: int| 0 <= j < kept.len() ==> (#[trigger] kept[j]) == ids[from[j]],
                    forall|j: int| 0 <= j < kept.len() ==> (#[trigger] kept[j]) != gone,
                    forall|j: int, k: int|
                        0 <= j < k < kept.len() ==> (#[trigger] from[j]) < (#[trigger] from[k]),
                    forall|k: int|
                        0 <= k < i && (#[trigger] ids[k]) != gone ==> kept@.contains(ids[k]),
                decreases ids.len() - i,
            {
                let id = ids[i];
                if id != gone {
                    let ghost before = kept@;
                    kept.push(id);
                    proof {
                        from = from.push(i as int);
                        assert forall|k: int|
                            0 <= k < i + 1 && (#[trigger] ids[k]) != gone implies kept@.contains(
                            ids[k],
                        ) by {
                            if k < i {
                                let j = choose|j: int| 0 <= j < before.len() && before[j] == ids[k];
                                assert(kept@[j] == ids[k]);
                            } else {
                                assert(kept@[before.len() as int] == ids[k]);
                            }
                        }
                    }
                }
                i += 1;
            }
            proof {
                assert forall|j: int, k: int| 0 <= j < k < kept.len() implies kept[j]
                    != kept[k] by {
                    assert(from[j] < from[k]);
                }
                assert forall|id: usize| kept@.to_set().contains(id) <==> members.remove(
                    gone,
                ).contains(id) by {
                    if kept@.to_set().contains(id) {
                        let j = choose|j: int| 0 <= j < kept.len() && kept[j] == id;
                        assert(ids@.to_set().contains(ids[from[j]]));
                    }
                    if members.remove(gone).contains(id) {
                        assert(ids@.to_set().contains(id));
                        let k = choose|k: int| 0 <= k < ids.len() && ids[k] == id;
                        assert(kept@.contains(ids[k]));
                    }
                }
                assert(kept@.to_set() =~= members.remove(gone));
            }
            kept
        },
    }
}

impl<C> Registry<C> {
    /// One copy of `message` for every registered connection, but for
    /// `exclude` where one is named.
    pub fn send_to_all(&self, message: &ServerMessage, exclude: Option<usize>) -> (deliveries: Vec<
        Delivery,
    >)
        ensures
            one_each(
                deliveries@,
                all_but(self@.dom(), exclude),
                |id: usize| message@,
            ),
    {
        let ids = without(self.ids(), exclude);
        let mut deliveries: Vec<Delivery> = Vec::new();
        let mut i: usize = 0;
        while i < ids.len()
            invariant
                i <= ids.len(),
                deliveries.len() == i,
                forall|j: int| 0 <= j < i ==> (#[trigger] deliveries[j]).to == ids[j],
                forall|j: int| 0 <= j < i ==> (#[trigger] deliveries[j]).message@ == message@,
            decreases ids.len() - i,
        {
            deliveries.push(Delivery { to: ids[i], message: message.clone() });
            i += 1;
        }
        proof {
            lemma_one_each(
                deliveries@,
                ids@,
                all_but(self@.dom(), exclude),
                |id: usize| message@,
            );
        }
        deliveries
    }
}

/// Announces `msg` to every registered connection.
pub fn broadcast<C>(msg: ServerMessage, users: &Registry<C>) -> (deliveries: Vec<Delivery>)
    ensures
        one_each(deliveries@, users@.dom(), |id: usize| msg@),
{
    users.send_to_all(&msg, None)
}

/// One round of the update loop. With nothing in `snapshot` the round is
/// skipped. Otherwise every registered connection is owed exactly one update:
/// the states in `snapshot` of all connections but itself, which may be none.
pub fn update_round<C>(users: &Registry<C>, snapshot: &Vec<RemoteState>) -> (deliveries: Vec<
    Delivery,
>)
    ensures
        snapshot.len() == 0 ==> deliveries.len() == 0,
        snapshot.len() > 0 ==> one_each(
            deliveries@,
            users@.dom(),
            |id: usize| update_for(snapshot@, id),
        ),
{
    let mut deliveries: Vec<Delivery> = Vec::new();
    if snapshot.len() == 0 {
        return deliveries;
    }
    let ids = users.ids();
    let mut i: usize = 0;
    while i < ids.len()
        invariant
            i <= ids.len(),
            deliveries.len() == i,
            forall|j: int| 0 <= j < i ==> (#[trigger] deliveries[j]).to == ids[j],
            forall|j: int|
                0 <= j < i ==> (#[trigger] deliveries[j]).message@ == update_for(
                    snapshot@,
                    ids[j],
                ),
        decreases ids.len() - i,
    {
        let uid = ids[i];
        let message = ServerMessage::Update(others_of(snapshot, uid));
        deliveries.push(Delivery { to: uid, message });
        i += 1;
    }
    proof {
        lemma_one_each(deliveries@, ids@, users@.dom(), |id: usize| update_for(snapshot@, id));
    }
    deliveries
}

} // verus!
