//! The server as a whole.
//!
//! The parts of this crate are used by many tasks at once: one per connection
//! and one for the update loop. Each call of a part happens under that part's
//! lock, so a run of the server is a sequence of such calls. This module
//! describes the sequences that callers who follow the handlers can produce,
//! and proves what holds of every one of them.

use crate::broadcast::{one_each, update_for, update_lists_the_others, Delivery};
use crate::handler::{action_for, open, phase_after, reported, Action, Inbound, Phase};
use crate::message::{others, RemoteState, ServerMessageView, State};
use crate::store::lists;
use vstd::prelude::*;

verus! {

/// The server between two calls.
pub struct System {
    /// The identifier that the allocator hands out next (`IdAllocator::view`).
    pub next_id: nat,
    /// The identifiers handed out so far, in the order of their allocation.
    pub issued: Seq<usize>,
    /// The phase of the handler of every connection that has been welcomed.
    pub phase: Map<usize, Phase>,
    /// The connections in the registry.
    pub registered: Set<usize>,
    /// The state store.
    pub states: Map<usize, State>,
    /// The connections whose departure has been announced.
    pub announced: Set<usize>,
    /// For every welcomed connection, all that was put on its outbound
    /// channel, oldest first.
    pub outbox: Map<usize, Seq<ServerMessageView>>,
}

/// One call of a part of the server.
pub enum Step {
    /// A new handler is welcomed (`Handler::send_welcome`) and the welcome is
    /// put on its channel.
    Welcome,
    /// The handler `id` enters the registry (`Registry::insert`).
    Register { id: usize },
    /// The handler `id` takes `event` from its read side (`Handler::step`)
    /// and, where the action is a report, applies it (`user_message`).
    Receive { id: usize, event: Inbound },
    /// The closed handler `id` is taken out of the store (`StateStore::remove`).
    Forget { id: usize },
    /// The closed handler `id` is taken out of the registry (`Registry::remove`).
    Unregister { id: usize },
    /// The departure of `id` is put on every registered channel (`broadcast`).
    Announce { id: usize },
    /// One round of the update loop (`StateStore::snapshot`, `update_round`).
    Tick { snapshot: Seq<RemoteState> },
}

/// The server at start: nobody has connected.
pub open spec fn initial() -> System {
    System {
        next_id: 1,
        issued: Seq::empty(),
        phase: Map::empty(),
        registered: Set::empty(),
        states: Map::empty(),
        announced: Set::empty(),
        outbox: Map::empty(),
    }
}

/// The outboxes after `message(id)` has been put on the channel of each
/// `id` in `recipients`.
pub open spec fn posted(
    outbox: Map<usize, Seq<ServerMessageView>>,
    recipients: Set<usize>,
    message: spec_fn(usize) -> ServerMessageView,
) -> Map<usize, Seq<ServerMessageView>> {
    Map::new(
        |id: usize| outbox.contains_key(id),
        |id: usize|
            if recipients.contains(id) {
                outbox[id].push(message(id))
            } else {
                outbox[id]
            },
    )
}

/// Whether `step` can be the next call. A handler registers once, after its
/// welcome and before it reads; it reads while it is open; once closed it
/// cleans up, and announces its departure once, when the cleaning is done.
pub open spec fn enabled(s: System, step: Step) -> bool {
    match step {
        Step::Welcome => s.next_id < usize::MAX,
        Step::Register { id } => s.phase.contains_key(id) && s.phase[id] == Phase::Welcomed
            && !s.registered.contains(id),
        Step::Receive { id, event } => s.phase.contains_key(id) && open(s.phase[id])
            && s.registered.contains(id),
        Step::Forget { id } => s.phase.contains_key(id) && s.phase[id] == Phase::Closed,
        Step::Unregister { id } => s.phase.contains_key(id) && s.phase[id] == Phase::Closed,
        Step::Announce { id } => s.phase.contains_key(id) && s.phase[id] == Phase::Closed
            && !s.registered.contains(id) && !s.states.contains_key(id) && !s.announced.contains(
            id,
        ),
        Step::Tick { snapshot } => lists(snapshot, s.states),
    }
}

/// The server after `step`.
pub open spec fn apply(s: System, step: Step) -> System {
    match step {
        Step::Welcome => {
            let id = s.next_id as usize;
            System {
                next_id: s.next_id + 1,
                issued: s.issued.push(id),
                phase: s.phase.insert(id, Phase::Welcomed),
                outbox: s.outbox.insert(id, seq![ServerMessageView::Welcome(id)]),
                ..s
            }
        },
        Step::Register { id } => System { registered: s.registered.insert(id), ..s },
        Step::Receive { id, event } => System {
            phase: s.phase.insert(id, phase_after(s.phase[id], event)),
            states: match action_for(s.phase[id], id, event) {
                Action::Report { id, message } => reported(s.states, id, message),
                _ => s.states,
            },
            ..s
        },
        Step::Forget { id } => System { states: s.states.remove(id), ..s },
        Step::Unregister { id } => System { registered: s.registered.remove(id), ..s },
        Step::Announce { id } => System {
            announced: s.announced.insert(id),
            outbox: posted(s.outbox, s.registered, |to: usize| ServerMessageView::GoodBye(id)),
            ..s
        },
        Step::Tick { snapshot } => if snapshot.len() == 0 {
            s
        } else {
            System {
                outbox: posted(s.outbox, s.registered, |to: usize| update_for(snapshot, to)),
                ..s
            }
        },
    }
}

/// Whether every step of `steps` is enabled when its turn comes.
pub open spec fn legal(steps: Seq<Step>) -> bool
    decreases steps.len(),
{
    steps.len() == 0 || (legal(steps.drop_last()) && enabled(
        after(steps.drop_last()),
        steps.last(),
    ))
}

/// The server after `steps`, taken from the start.
pub open spec fn after(steps: Seq<Step>) -> System
    decreases steps.len(),
{
    if steps.len() == 0 {
        initial()
    } else {
        apply(after(steps.drop_last()), steps.last())
    }
}

/// `log` opens with the welcome of `id` and holds no other welcome.
pub open spec fn welcomed_first(id: usize, log: Seq<ServerMessageView>) -> bool {
    &&& log.len() > 0
    &&& log[0] == ServerMessageView::Welcome(id)
    &&& forall|j: int| 0 < j < log.len() ==> !((#[trigger] log[j]) is Welcome)
}

/// No departure is announced twice in `log`.
pub open spec fn goodbyes_once(log: Seq<ServerMessageView>) -> bool {
    forall|i: int, j: int|
        0 <= i < j < log.len() && (#[trigger] log[i]) is GoodBye ==> log[i] != (#[trigger] log[j])
}

/// Every departure in `log` is one that `announced` knows of.
pub open spec fn goodbyes_from(log: Seq<ServerMessageView>, announced: Set<usize>) -> bool {
    forall|i: int|
        0 <= i < log.len() && (#[trigger] log[i]) is GoodBye ==> announced.contains(
            log[i]->GoodBye_0,
        )
}

/// What holds of the server after any legal sequence of steps.
pub open spec fn sound(s: System) -> bool {
    &&& s.next_id == s.issued.len() + 1
    &&& s.next_id <= usize::MAX
    &&& forall|i: int| 0 <= i < s.issued.len() ==> #[trigger] s.issued[i] == i + 1
    &&& forall|id: usize| #[trigger] s.phase.contains_key(id) <==> 1 <= id <= s.issued.len()
    &&& forall|id: usize| #[trigger]
        s.phase.contains_key(id) ==> s.phase[id] != Phase::Connecting
    &&& forall|id: usize| #[trigger] s.outbox.contains_key(id) <==> s.phase.contains_key(id)
    &&& forall|id: usize| #[trigger] s.registered.contains(id) ==> s.phase.contains_key(id)
    &&& forall|id: usize| #[trigger] s.states.contains_key(id) ==> s.phase.contains_key(id)
    &&& forall|id: usize| #[trigger]
        s.announced.contains(id) ==> s.phase.contains_key(id) && s.phase[id] == Phase::Closed
            && !s.registered.contains(id) && !s.states.contains_key(id)
    &&& forall|id: usize| #[trigger]
        s.outbox.contains_key(id) ==> welcomed_first(id, s.outbox[id]) && goodbyes_once(
            s.outbox[id],
        ) && goodbyes_from(s.outbox[id], s.announced)
}

proof fn lemma_initial_sound()
    ensures
        sound(initial()),
{
}

proof fn lemma_step_sound(s: System, step: Step)
    requires
        sound(s),
        enabled(s, step),
    ensures
        sound(apply(s, step)),
{
    let t = apply(s, step);
    match step {
        Step::Welcome => {
            let id = s.next_id as usize;
            assert forall|to: usize| #[trigger] t.outbox.contains_key(to) implies welcomed_first(
                to,
                t.outbox[to],
            ) && goodbyes_once(t.outbox[to]) && goodbyes_from(t.outbox[to], t.announced) by {
                if to != id {
                    assert(s.outbox.contains_key(to));
                }
            }
        },
        Step::Register { id } => {},
        Step::Receive { id, event } => {},
        Step::Forget { id } => {},
        Step::Unregister { id } => {},
        Step::Announce { id } => {
            let bye = ServerMessageView::GoodBye(id);
            assert forall|to: usize| #[trigger] t.outbox.contains_key(to) implies welcomed_first(
                to,
                t.outbox[to],
            ) && goodbyes_once(t.outbox[to]) && goodbyes_from(t.outbox[to], t.announced) by {
                assert(s.outbox.contains_key(to));
                let old_log = s.outbox[to];
                if s.registered.contains(to) {
                    assert(t.outbox[to] == old_log.push(bye));
                    assert forall|i: int, j: int|
                        0 <= i < j < t.outbox[to].len() && (#[trigger] t.outbox[to][i])
                            is GoodBye implies t.outbox[to][i] != (#[trigger] t.outbox[to][j]) by {
                        if j < old_log.len() {
                            assert(old_log[i] != old_log[j]);
                        } else {
                            assert(old_log[i] is GoodBye);
                            assert(s.announced.contains(old_log[i]->GoodBye_0));
                        }
                    }
                } else {
                    assert(t.outbox[to] == old_log);
                }
            }
        },
        Step::Tick { snapshot } => {
            if snapshot.len() > 0 {
                assert forall|to: usize| #[trigger]
                    t.outbox.contains_key(to) implies welcomed_first(to, t.outbox[to])
                    && goodbyes_once(t.outbox[to]) && goodbyes_from(t.outbox[to], t.announced) by {
                    assert(s.outbox.contains_key(to));
                    let old_log = s.outbox[to];
                    if s.registered.contains(to) {
                        assert(t.outbox[to] == old_log.push(update_for(snapshot, to)));
                        assert forall|i: int, j: int|
                            0 <= i < j < t.outbox[to].len() && (#[trigger] t.outbox[to][i])
                                is GoodBye implies t.outbox[to][i] != (
                        #[trigger] t.outbox[to][j]) by {
                            if j < old_log.len() {
                                assert(old_log[i] != old_log[j]);
                            }
                        }
                    } else {
                        assert(t.outbox[to] == old_log);
                    }
                }
            }
        },
    }
}

/// Every legal run leaves the server sound.
pub proof fn legal_runs_are_sound(steps: Seq<Step>)
    requires
        legal(steps),
    ensures
        sound(after(steps)),
    decreases steps.len(),
{
    if steps.len() == 0 {
        lemma_initial_sound();
    } else {
        legal_runs_are_sound(steps.drop_last());
        lemma_step_sound(after(steps.drop_last()), steps.last());
    }
}

/// A run that is legal to its end is legal up to any point before.
proof fn lemma_legal_prefix(steps: Seq<Step>, more: Seq<Step>)
    requires
        legal(steps + more),
    ensures
        legal(steps),
    decreases more.len(),
{
    if more.len() == 0 {
        assert(steps + more =~= steps);
    } else {
        assert((steps + more).drop_last() =~= steps + more.drop_last());
        lemma_legal_prefix(steps, more.drop_last());
    }
}

/// Identifiers are handed out in strictly increasing order, starting at 1.
/// Whatever the tasks do, no two connections are given the same one.
pub proof fn identifiers_increase(steps: Seq<Step>, i: int, j: int)
    requires
        legal(steps),
        0 <= i < j < after(steps).issued.len(),
    ensures
        1 <= after(steps).issued[i] < after(steps).issued[j],
{
    legal_runs_are_sound(steps);
}

/// The step that welcomes a connection hands out the identifier that follows
/// all those handed out before, and puts the welcome, and nothing else, on the
/// channel of the newcomer.
pub proof fn welcome_issues_the_next_identifier(steps: Seq<Step>)
    requires
        legal(steps),
        enabled(after(steps), Step::Welcome),
    ensures
        ({
            let before = after(steps);
            let now = apply(before, Step::Welcome);
            let id = now.issued.last();
            &&& now.issued == before.issued.push(id)
            &&& forall|i: int| 0 <= i < before.issued.len() ==> before.issued[i] < id
            &&& !before.outbox.contains_key(id)
            &&& now.outbox[id] == seq![ServerMessageView::Welcome(id)]
        }),
{
    legal_runs_are_sound(steps);
}

/// All that a connection ever receives begins with its welcome, and it is
/// welcomed once: the welcome comes before any update or good-bye, and no
/// second welcome follows.
pub proof fn welcome_comes_first(steps: Seq<Step>, id: usize)
    requires
        legal(steps),
        after(steps).outbox.contains_key(id),
    ensures
        welcomed_first(id, after(steps).outbox[id]),
{
    legal_runs_are_sound(steps);
}

/// Whoever is in the registry has been welcomed and has not been announced
/// as gone, and every state in the store is that of a welcomed connection.
pub proof fn registered_are_welcomed(steps: Seq<Step>, id: usize)
    requires
        legal(steps),
    ensures
        after(steps).registered.contains(id) ==> after(steps).outbox.contains_key(id)
            && !after(steps).announced.contains(id),
        after(steps).states.contains_key(id) ==> after(steps).outbox.contains_key(id)
            && !after(steps).announced.contains(id),
        after(steps).outbox.contains_key(id) ==> after(steps).issued.contains(id),
{
    legal_runs_are_sound(steps);
    let s = after(steps);
    if s.outbox.contains_key(id) {
        assert(s.phase.contains_key(id));
        assert(s.issued[id - 1] == id);
    }
}

/// In a round of the update loop over a store that holds something, every
/// registered connection receives exactly one message: an update that lists
/// the latest report of every other connection in the store and nothing of
/// its own. Nobody else receives anything, and nothing else changes.
pub proof fn round_reaches_everyone(steps: Seq<Step>, snapshot: Seq<RemoteState>, to: usize)
    requires
        legal(steps),
        enabled(after(steps), Step::Tick { snapshot }),
        after(steps).states.len() > 0,
        after(steps).outbox.contains_key(to),
    ensures
        ({
            let before = after(steps);
            let now = apply(before, Step::Tick { snapshot });
            &&& before.registered.contains(to) ==> now.outbox[to] == before.outbox[to].push(
                ServerMessageView::Update(others(snapshot, to)),
            )
            &&& !before.registered.contains(to) ==> now.outbox[to] == before.outbox[to]
            &&& lists(others(snapshot, to), before.states.remove(to))
            &&& now.states == before.states
            &&& now.registered == before.registered
        }),
{
    update_lists_the_others(snapshot, after(steps).states, to);
}

/// A round of the update loop over an empty store sends nothing to anyone.
pub proof fn empty_store_skips_the_round(steps: Seq<Step>, snapshot: Seq<RemoteState>)
    requires
        legal(steps),
        enabled(after(steps), Step::Tick { snapshot }),
        after(steps).states.len() == 0,
    ensures
        apply(after(steps), Step::Tick { snapshot }) == after(steps),
{
}

/// Cleaning up after a connection that is not there changes nothing, and
/// cleaning up twice is cleaning up once.
pub proof fn cleaning_up_is_idempotent(s: System, id: usize)
    ensures
        !s.states.contains_key(id) ==> apply(s, Step::Forget { id }) == s,
        !s.registered.contains(id) ==> apply(s, Step::Unregister { id }) == s,
        apply(apply(s, Step::Forget { id }), Step::Forget { id }) == apply(s, Step::Forget { id }),
        apply(apply(s, Step::Unregister { id }), Step::Unregister { id }) == apply(
            s,
            Step::Unregister { id },
        ),
{
    assert(s.states.remove(id).remove(id) =~= s.states.remove(id));
    assert(s.registered.remove(id).remove(id) =~= s.registered.remove(id));
    if !s.states.contains_key(id) {
        assert(s.states.remove(id) =~= s.states);
    }
    if !s.registered.contains(id) {
        assert(s.registered.remove(id) =~= s.registered);
    }
}

/// When the departure of `id` is announced, every connection that is
/// registered then receives `GoodBye(id)`, for the first and only time; the
/// one that left is not among them.
pub proof fn departure_is_announced_once(steps: Seq<Step>, id: usize, to: usize)
    requires
        legal(steps),
        enabled(after(steps), Step::Announce { id }),
        after(steps).registered.contains(to),
    ensures
        to != id,
        !after(steps).outbox[to].contains(ServerMessageView::GoodBye(id)),
        apply(after(steps), Step::Announce { id }).outbox[to] == after(steps).outbox[to].push(
            ServerMessageView::GoodBye(id),
        ),
{
    legal_runs_are_sound(steps);
    let s = after(steps);
    let log = s.outbox[to];
    assert(s.outbox.contains_key(to));
    if log.contains(ServerMessageView::GoodBye(id)) {
        let i = choose|i: int| 0 <= i < log.len() && log[i] == ServerMessageView::GoodBye(id);
        assert(log[i] is GoodBye);
        assert(s.announced.contains(log[i]->GoodBye_0));
    }
}

/// No connection is told twice of the same departure.
pub proof fn no_departure_is_announced_twice(steps: Seq<Step>, to: usize, i: int, j: int)
    requires
        legal(steps),
        after(steps).outbox.contains_key(to),
        0 <= i < j < after(steps).outbox[to].len(),
        after(steps).outbox[to][i] is GoodBye,
    ensures
        after(steps).outbox[to][i] != after(steps).outbox[to][j],
{
    legal_runs_are_sound(steps);
    assert(goodbyes_once(after(steps).outbox[to]));
}

/// What has been put on a channel stays there: later steps only add behind it.
pub proof fn outboxes_only_grow(steps: Seq<Step>, more: Seq<Step>, to: usize)
    requires
        legal(steps + more),
        after(steps).outbox.contains_key(to),
    ensures
        after(steps + more).outbox.contains_key(to),
        after(steps).outbox[to].len() <= after(steps + more).outbox[to].len(),
        forall|i: int|
            0 <= i < after(steps).outbox[to].len() ==> after(steps + more).outbox[to][i] == (
            #[trigger] after(steps).outbox[to][i]),
    decreases more.len(),
{
    if more.len() == 0 {
        assert(steps + more =~= steps);
    } else {
        let front = steps + more.drop_last();
        assert((steps + more).drop_last() =~= front);
        assert((steps + more).last() == more.last());
        outboxes_only_grow(steps, more.drop_last(), to);
        legal_runs_are_sound(front);
    }
}

/// From the announcement of the departure of `id` on, and whatever follows,
/// every connection that was registered at the announcement has `GoodBye(id)`
/// on its channel exactly once.
pub proof fn departure_is_heard_exactly_once(
    steps: Seq<Step>,
    id: usize,
    more: Seq<Step>,
    to: usize,
) -> (at: int)
    requires
        legal(steps.push(Step::Announce { id }) + more),
        after(steps).registered.contains(to),
    ensures
        ({
            let log = after(steps.push(Step::Announce { id }) + more).outbox[to];
            &&& 0 <= at < log.len()
            &&& log[at] == ServerMessageView::GoodBye(id)
            &&& forall|j: int|
                0 <= j < log.len() && (#[trigger] log[j]) == ServerMessageView::GoodBye(id) ==> j
                    == at
        }),
{
    let announce = Step::Announce { id };
    let told = steps.push(announce);
    lemma_legal_prefix(told, more);
    assert(told.drop_last() =~= steps);
    legal_runs_are_sound(steps);
    departure_is_announced_once(steps, id, to);
    outboxes_only_grow(told, more, to);
    legal_runs_are_sound(told + more);
    let at = after(steps).outbox[to].len() as int;
    let log = after(told + more).outbox[to];
    assert(after(told).outbox[to][at] == ServerMessageView::GoodBye(id));
    assert(goodbyes_once(log));
    assert forall|j: int|
        0 <= j < log.len() && (#[trigger] log[j]) == ServerMessageView::GoodBye(id) implies j
        == at by {
        if j < at {
            assert(log[j] != log[at]);
        } else if j > at {
            assert(log[at] != log[j]);
        }
    }
    at
}

/// Once a closed connection is out of the store it stays out: whatever
/// follows, no later snapshot holds a state of it.
pub proof fn forgotten_stay_out(steps: Seq<Step>, more: Seq<Step>, id: usize)
    requires
        legal(steps + more),
        after(steps).phase.contains_key(id),
        after(steps).phase[id] == Phase::Closed,
        !after(steps).states.contains_key(id),
    ensures
        after(steps + more).phase.contains_key(id),
        after(steps + more).phase[id] == Phase::Closed,
        !after(steps + more).states.contains_key(id),
        forall|snapshot: Seq<RemoteState>, i: int|
            lists(snapshot, after(steps + more).states) && 0 <= i < snapshot.len() ==> (
            #[trigger] snapshot[i]).id != id,
    decreases more.len(),
{
    if more.len() == 0 {
        assert(steps + more =~= steps);
    } else {
        let front = steps + more.drop_last();
        assert((steps + more).drop_last() =~= front);
        assert((steps + more).last() == more.last());
        forgotten_stay_out(steps, more.drop_last(), id);
        legal_runs_are_sound(front);
    }
}

/// Once the departure of a connection is announced, the connection is closed,
/// out of the registry and out of the store, and stays so.
pub proof fn announced_are_gone(steps: Seq<Step>, more: Seq<Step>, id: usize)
    requires
        legal(steps + more),
        after(steps).announced.contains(id),
    ensures
        after(steps + more).announced.contains(id),
        after(steps + more).phase[id] == Phase::Closed,
        !after(steps + more).registered.contains(id),
        !after(steps + more).states.contains_key(id),
    decreases more.len(),
{
    legal_runs_are_sound(steps + more);
    if more.len() == 0 {
        assert(steps + more =~= steps);
    } else {
        let front = steps + more.drop_last();
        assert((steps + more).drop_last() =~= front);
        assert((steps + more).last() == more.last());
        announced_are_gone(steps, more.drop_last(), id);
    }
}

/// The outboxes after the caller has carried out `deliveries`, one after the
/// other. A message for a connection without a channel is lost.
pub open spec fn carried_out(
    outbox: Map<usize, Seq<ServerMessageView>>,
    deliveries: Seq<Delivery>,
) -> Map<usize, Seq<ServerMessageView>>
    decreases deliveries.len(),
{
    if deliveries.len() == 0 {
        outbox
    } else {
        let before = carried_out(outbox, deliveries.drop_last());
        let last = deliveries.last();
        if before.contains_key(last.to) {
            before.insert(last.to, before[last.to].push(last.message@))
        } else {
            before
        }
    }
}

/// Deliveries that hold one message for each recipient come to the same
/// outboxes in whatever order they are listed: each recipient's message is
/// added to its outbox, and that is all.
pub proof fn deliveries_post_one_each(
    outbox: Map<usize, Seq<ServerMessageView>>,
    deliveries: Seq<Delivery>,
    recipients: Set<usize>,
    message: spec_fn(usize) -> ServerMessageView,
)
    requires
        one_each(deliveries, recipients, message),
    ensures
        carried_out(outbox, deliveries) == posted(outbox, recipients, message),
    decreases deliveries.len(),
{
    if deliveries.len() == 0 {
        assert(recipients.len() == 0);
        assert(recipients =~= Set::<usize>::empty());
        assert(posted(outbox, recipients, message) =~= outbox);
    } else {
        let front = deliveries.drop_last();
        let last = deliveries.last();
        let rest = recipients.remove(last.to);
        assert(deliveries[deliveries.len() - 1] == last);
        assert(recipients.contains(last.to));
        assert forall|id: usize| #[trigger] rest.contains(id) implies exists|i: int|
            0 <= i < front.len() && (#[trigger] front[i]).to == id by {
            assert(recipients.contains(id));
            let i = choose|i: int| 0 <= i < deliveries.len() && (#[trigger] deliveries[i]).to == id;
            assert(front[i].to == id);
        }
        assert forall|i: int| 0 <= i < front.len() implies rest.contains((#[trigger] front[i]).to)
            && front[i].message@ == message(front[i].to) by {
            assert(deliveries[i].to != deliveries[deliveries.len() - 1].to);
        }
        assert forall|i: int, j: int| 0 <= i < j < front.len() implies (#[trigger] front[i]).to != (
        #[trigger] front[j]).to by {
            assert(deliveries[i].to != deliveries[j].to);
        }
        assert(one_each(front, rest, message));
        deliveries_post_one_each(outbox, front, rest, message);
        assert(carried_out(outbox, deliveries) =~= posted(outbox, recipients, message));
    }
}

/// Carrying out what `update_round` hands back for a snapshot of the store is
/// one round of the update loop.
pub proof fn update_round_is_a_tick(
    s: System,
    snapshot: Seq<RemoteState>,
    deliveries: Seq<Delivery>,
)
    requires
        snapshot.len() == 0 ==> deliveries.len() == 0,
        snapshot.len() > 0 ==> one_each(
            deliveries,
            s.registered,
            |id: usize| update_for(snapshot, id),
        ),
    ensures
        (System { outbox: carried_out(s.outbox, deliveries), ..s }) == apply(
            s,
            Step::Tick { snapshot },
        ),
{
    if snapshot.len() > 0 {
        deliveries_post_one_each(
            s.outbox,
            deliveries,
            s.registered,
            |id: usize| update_for(snapshot, id),
        );
        assert(carried_out(s.outbox, deliveries) =~= apply(s, Step::Tick { snapshot }).outbox);
    }
}

/// Carrying out what `broadcast` hands back for `GoodBye(id)` is the
/// announcement of the departure of `id`.
pub proof fn broadcast_is_an_announcement(s: System, id: usize, deliveries: Seq<Delivery>)
    requires
        one_each(deliveries, s.registered, |to: usize| ServerMessageView::GoodBye(id)),
    ensures
        (System {
            announced: s.announced.insert(id),
            outbox: carried_out(s.outbox, deliveries),
            ..s
        }) == apply(s, Step::Announce { id }),
{
    deliveries_post_one_each(
        s.outbox,
        deliveries,
        s.registered,
        |to: usize| ServerMessageView::GoodBye(id),
    );
    assert(carried_out(s.outbox, deliveries) =~= apply(s, Step::Announce { id }).outbox);
}

} // verus!
