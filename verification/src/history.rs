//! Histories of the hub: what holds however sends, awaits, returns and timeouts
//! follow one another.

use vstd::multiset::Multiset;
use vstd::prelude::*;

use crate::envelope::EnvelopeView;
use crate::hub::{
    best, carried, first_match, ids_grow, lemma_first_match, lemma_most_specific_then_oldest,
    lemma_removal_keeps, survivors, FilterView, HubView, SendOutcome, WaiterView,
};

verus! {

broadcast use vstd::seq_lib::group_to_multiset_ensures;

/// One step of the hub.
pub enum Move {
    /// An envelope was routed: committed, that is recorded in the audit log and
    /// routed in one step, or returned if `to_front`.
    Routed { envelope: EnvelopeView, to_front: bool, purged: Seq<u64>, outcome: SendOutcome },
    /// An await of `name` took a queued envelope.
    Took { name: Seq<char>, filter: FilterView },
    /// An await of `name` found nothing and parked.
    Parked { name: Seq<char>, filter: FilterView, channel: int },
    /// The waiter at `at` among those of `name` timed out.
    TimedOut { name: Seq<char>, at: int },
}

impl Move {
    /// Whether this step leads from `before` to `after`.
    pub open spec fn leads(self, before: HubView, after: HubView) -> bool {
        match self {
            Move::Routed { envelope, to_front, purged, outcome } => before.routes_to(
                envelope,
                to_front,
                purged,
                outcome,
                after,
            ),
            Move::Took { name, filter } => match first_match(before.queue_of(name), filter) {
                Some(i) => after == before.with_queue(name, before.queue_of(name).remove(i)),
                None => false,
            },
            Move::Parked { name, filter, channel } => {
                &&& first_match(before.queue_of(name), filter) is None
                &&& before.next_waiter_id < u64::MAX
                &&& after == (HubView {
                    next_waiter_id: (before.next_waiter_id + 1) as u64,
                    ..before.with_parked(
                        name,
                        before.parked_at(name).push(
                            WaiterView { id: before.next_waiter_id, filter, channel },
                        ),
                    )
                })
            },
            Move::TimedOut { name, at } => {
                &&& 0 <= at < before.parked_at(name).len()
                &&& after == before.with_parked(name, before.parked_at(name).remove(at))
            },
        }
    }

    /// The envelope for `name` that this step brings into the hub, if any.
    pub open spec fn brings(self, name: Seq<char>) -> Multiset<EnvelopeView> {
        match self {
            Move::Routed { envelope, .. } => if envelope.to == name {
                Multiset::singleton(envelope)
            } else {
                Multiset::empty()
            },
            _ => Multiset::empty(),
        }
    }

    /// The envelope for `name` that this step, from `before`, gives to a consumer,
    /// if any.
    pub open spec fn gives(self, name: Seq<char>, before: HubView) -> Multiset<EnvelopeView> {
        match self {
            Move::Routed { envelope, outcome, .. } => if envelope.to == name && outcome
                == SendOutcome::HandedOff {
                Multiset::singleton(envelope)
            } else {
                Multiset::empty()
            },
            Move::Took { name: taker, filter } => match first_match(
                before.queue_of(taker),
                filter,
            ) {
                Some(i) => if taker == name {
                    Multiset::singleton(before.queue_of(taker)[i])
                } else {
                    Multiset::empty()
                },
                None => Multiset::empty(),
            },
            _ => Multiset::empty(),
        }
    }
}

/// Whether `states` are what the hub goes through, from its startup, by `moves`.
pub open spec fn is_history(states: Seq<HubView>, moves: Seq<Move>) -> bool {
    &&& states.len() == moves.len() + 1
    &&& states[0] == HubView::initial()
    &&& forall|k: int|
        0 <= k < moves.len() ==> (#[trigger] moves[k]).leads(states[k], states[k + 1])
}

/// Every envelope for `name` that `moves` brought into the hub.
pub open spec fn brought(moves: Seq<Move>, name: Seq<char>) -> Multiset<EnvelopeView>
    decreases moves.len(),
{
    if moves.len() == 0 {
        Multiset::empty()
    } else {
        brought(moves.drop_last(), name).add(moves.last().brings(name))
    }
}

/// Every envelope for `name` that `moves` gave to a consumer.
pub open spec fn given(states: Seq<HubView>, moves: Seq<Move>, name: Seq<char>) -> Multiset<
    EnvelopeView,
>
    decreases moves.len(),
{
    if moves.len() == 0 {
        Multiset::empty()
    } else {
        given(states, moves.drop_last(), name).add(
            moves.last().gives(name, states[moves.len() - 1]),
        )
    }
}

/// Every step keeps the routing invariant.
pub proof fn lemma_moves_keep_the_invariant(step: Move, before: HubView, after: HubView)
    requires
        before.inv(),
        step.leads(before, after),
    ensures
        after.inv(),
{
    match step {
        Move::Routed { envelope, to_front, purged, outcome } => {
            let left = survivors(before.parked_at(envelope.to), envelope, purged.len());
            lemma_most_specific_then_oldest(left, envelope);
            match outcome {
                SendOutcome::HandedOff => {
                    before.lemma_after_handoff(envelope, purged.len());
                },
                SendOutcome::Queued(_) => {
                    before.lemma_after_queueing(envelope, to_front, purged.len());
                },
            }
        },
        Move::Took { name, filter } => {
            lemma_first_match(before.queue_of(name), filter);
            before.lemma_after_taking(name, first_match(before.queue_of(name), filter)->0);
        },
        Move::Parked { name, filter, channel } => {
            lemma_first_match(before.queue_of(name), filter);
            before.lemma_after_parking(
                name,
                WaiterView { id: before.next_waiter_id, filter, channel },
            );
        },
        Move::TimedOut { name, at } => {
            before.lemma_after_removal(name, at);
        },
    }
}

/// In one step, what is queued for a name and what consumers got of it grow by what
/// the step brought, no more and no less.
pub proof fn lemma_moves_balance(step: Move, before: HubView, after: HubView, name: Seq<char>)
    requires
        before.inv(),
        step.leads(before, after),
    ensures
        after.queue_of(name).to_multiset().add(step.gives(name, before)) == before.queue_of(
            name,
        ).to_multiset().add(step.brings(name)),
{
    let was = before.queue_of(name).to_multiset();
    match step {
        Move::Routed { envelope, to_front, purged, outcome } => {
            before.lemma_routing_conserves(envelope, to_front, purged, outcome, after);
            if envelope.to == name && outcome is Queued {
                assert(was.insert(envelope) =~= was.add(Multiset::singleton(envelope)));
            }
        },
        Move::Took { name: taker, filter } => {
            let queue = before.queue_of(taker);
            lemma_first_match(queue, filter);
            let at = first_match(queue, filter)->0;
            before.lemma_with(taker, queue.remove(at), before.parked_at(taker));
            assert(after.queue_of(taker) =~= queue.remove(at));
            if taker == name {
                assert(queue.contains(queue[at]));
                assert(queue.to_multiset().count(queue[at]) > 0);
                assert(queue.remove(at).to_multiset() =~= queue.to_multiset().remove(queue[at]));
                assert(queue.to_multiset().remove(queue[at]).add(
                    Multiset::singleton(queue[at]),
                ) =~= queue.to_multiset());
            } else {
                assert(after.queue_of(name) == before.queue_of(name));
            }
        },
        Move::Parked { .. } => {
            assert(after.queue_of(name) == before.queue_of(name));
        },
        Move::TimedOut { .. } => {
            assert(after.queue_of(name) == before.queue_of(name));
        },
    }
    assert(after.queue_of(name).to_multiset().add(step.gives(name, before)) =~= was.add(
        step.brings(name),
    ));
}

/// At every moment, each envelope that was accepted for a name, or came back to
/// routing, is either still queued or has gone to one consumer, and to no second:
/// what came in is what is queued together with what was given out.
pub proof fn lemma_nothing_is_lost_or_doubled(
    states: Seq<HubView>,
    moves: Seq<Move>,
    name: Seq<char>,
)
    requires
        is_history(states, moves),
    ensures
        states.last().inv(),
        brought(moves, name) == given(states, moves, name).add(
            states.last().queue_of(name).to_multiset(),
        ),
    decreases moves.len(),
{
    if moves.len() == 0 {
        let start = HubView::initial();
        assert(start.inv());
        assert(start.queue_of(name) =~= Seq::empty());
        assert(start.queue_of(name).to_multiset() =~= Multiset::empty());
        assert(brought(moves, name) =~= given(states, moves, name).add(
            states.last().queue_of(name).to_multiset(),
        ));
    } else {
        let n = moves.len() - 1;
        let earlier = states.drop_last();
        let init = moves.drop_last();
        assert forall|k: int| 0 <= k < init.len() implies (#[trigger] init[k]).leads(
            earlier[k],
            earlier[k + 1],
        ) by {
            assert(moves[k].leads(states[k], states[k + 1]));
        }
        lemma_nothing_is_lost_or_doubled(earlier, init, name);
        lemma_given_ignores_the_future(states, earlier, init, name);
        let before = states[n];
        let after = states[n + 1];
        let step = moves[n];
        assert(step.leads(before, after));
        assert(earlier.last() == before);
        lemma_moves_keep_the_invariant(step, before, after);
        lemma_moves_balance(step, before, after, name);
        let gave = given(states, init, name);
        let was = before.queue_of(name).to_multiset();
        let is = after.queue_of(name).to_multiset();
        assert(gave.add(was).add(step.brings(name)) =~= gave.add(was.add(step.brings(name))));
        assert(gave.add(is.add(step.gives(name, before))) =~= gave.add(
            step.gives(name, before),
        ).add(is));
    }
}

proof fn lemma_given_ignores_the_future(
    states: Seq<HubView>,
    earlier: Seq<HubView>,
    moves: Seq<Move>,
    name: Seq<char>,
)
    requires
        moves.len() <= earlier.len() <= states.len(),
        forall|k: int| 0 <= k < earlier.len() ==> #[trigger] earlier[k] == states[k],
    ensures
        given(earlier, moves, name) == given(states, moves, name),
    decreases moves.len(),
{
    if moves.len() > 0 {
        lemma_given_ignores_the_future(states, earlier, moves.drop_last(), name);
        assert(earlier[moves.len() - 1] == states[moves.len() - 1]);
    }
}

impl Move {
    /// Whether this step commits an envelope.
    pub open spec fn commits(self) -> bool {
        match self {
            Move::Routed { to_front, .. } => !to_front,
            _ => false,
        }
    }

    /// The envelope that this step routes.
    pub open spec fn routed(self) -> Option<EnvelopeView> {
        match self {
            Move::Routed { envelope, .. } => Some(envelope),
            _ => None,
        }
    }
}

/// The envelopes of the audit log's records of acceptance after `moves`, in the
/// order of the log.
pub open spec fn audited(moves: Seq<Move>) -> Seq<EnvelopeView>
    decreases moves.len(),
{
    if moves.len() == 0 {
        Seq::empty()
    } else {
        let before = audited(moves.drop_last());
        if moves.last().commits() {
            before.push(moves.last().routed()->0)
        } else {
            before
        }
    }
}

/// Where in the audit log the record of the commit `moves[k]` stands.
pub open spec fn record_of(moves: Seq<Move>, k: int) -> int {
    audited(moves.take(k)).len() as int
}

/// For each envelope in the queue of `name`, which of `moves` put it there.
pub open spec fn arrivals(states: Seq<HubView>, moves: Seq<Move>, name: Seq<char>) -> Seq<int>
    decreases moves.len(),
{
    if moves.len() == 0 {
        Seq::empty()
    } else {
        let n = moves.len() - 1;
        let before = arrivals(states, moves.drop_last(), name);
        match moves.last() {
            Move::Routed { envelope, to_front, outcome, .. } => if envelope.to != name
                || outcome is HandedOff {
                before
            } else if to_front {
                seq![n] + before
            } else {
                before.push(n)
            },
            Move::Took { name: taker, filter } => match first_match(
                states[n].queue_of(taker),
                filter,
            ) {
                Some(i) if taker == name => before.remove(i),
                _ => before,
            },
            _ => before,
        }
    }
}

/// Whether `origins` say of each envelope in `queue` which of `moves` put it there,
/// and those that were committed stand in the order of their commits.
pub open spec fn in_order(
    queue: Seq<EnvelopeView>,
    origins: Seq<int>,
    moves: Seq<Move>,
) -> bool {
    &&& origins.len() == queue.len()
    &&& forall|j: int|
        0 <= j < queue.len() ==> {
            &&& 0 <= #[trigger] origins[j] < moves.len()
            &&& moves[origins[j]].routed() == Some(queue[j])
        }
    &&& forall|i: int, j: int|
        0 <= i < j < queue.len() && moves[#[trigger] origins[i]].commits()
            && moves[#[trigger] origins[j]].commits() ==> origins[i] < origins[j]
}

proof fn lemma_order_is_kept(
    queue: Seq<EnvelopeView>,
    origins: Seq<int>,
    moves: Seq<Move>,
    longer: Seq<Move>,
)
    requires
        in_order(queue, origins, moves),
        moves.len() <= longer.len(),
        forall|k: int| 0 <= k < moves.len() ==> #[trigger] longer[k] == moves[k],
    ensures
        in_order(queue, origins, longer),
{
    assert forall|j: int| 0 <= j < queue.len() implies 0 <= #[trigger] origins[j] < longer.len()
        && longer[origins[j]].routed() == Some(queue[j]) by {
        assert(longer[origins[j]] == moves[origins[j]]);
    }
    assert forall|i: int, j: int|
        0 <= i < j < queue.len() && longer[#[trigger] origins[i]].commits()
            && longer[#[trigger] origins[j]].commits() implies origins[i] < origins[j] by {
        assert(longer[origins[i]] == moves[origins[i]]);
        assert(longer[origins[j]] == moves[origins[j]]);
    }
}

proof fn lemma_removal_keeps_order(
    queue: Seq<EnvelopeView>,
    origins: Seq<int>,
    moves: Seq<Move>,
    at: int,
)
    requires
        in_order(queue, origins, moves),
        0 <= at < queue.len(),
    ensures
        in_order(queue.remove(at), origins.remove(at), moves),
{
    let rest = queue.remove(at);
    let left = origins.remove(at);
    assert forall|j: int| 0 <= j < rest.len() implies 0 <= #[trigger] left[j] < moves.len()
        && moves[left[j]].routed() == Some(rest[j]) by {
        let k = if j < at {
            j
        } else {
            j + 1
        };
        assert(left[j] == origins[k]);
        assert(rest[j] == queue[k]);
    }
    assert forall|i: int, j: int|
        0 <= i < j < rest.len() && moves[#[trigger] left[i]].commits()
            && moves[#[trigger] left[j]].commits() implies left[i] < left[j] by {
        let k = if i < at {
            i
        } else {
            i + 1
        };
        let m = if j < at {
            j
        } else {
            j + 1
        };
        assert(left[i] == origins[k]);
        assert(left[j] == origins[m]);
    }
}

proof fn lemma_arrival_keeps_order(
    queue: Seq<EnvelopeView>,
    origins: Seq<int>,
    moves: Seq<Move>,
    envelope: EnvelopeView,
    to_front: bool,
)
    requires
        moves.len() > 0,
        in_order(queue, origins, moves.drop_last()),
        moves.last().routed() == Some(envelope),
        moves.last().commits() == !to_front,
    ensures
        to_front ==> in_order(seq![envelope] + queue, seq![moves.len() - 1] + origins, moves),
        !to_front ==> in_order(queue.push(envelope), origins.push(moves.len() - 1), moves),
{
    let init = moves.drop_last();
    let n = moves.len() - 1;
    assert forall|k: int| 0 <= k < init.len() implies #[trigger] moves[k] == init[k] by {}
    lemma_order_is_kept(queue, origins, init, moves);
    if to_front {
        let longer = seq![envelope] + queue;
        let from = seq![n] + origins;
        assert forall|j: int| 0 <= j < longer.len() implies 0 <= #[trigger] from[j] < moves.len()
            && moves[from[j]].routed() == Some(longer[j]) by {
            if j > 0 {
                assert(from[j] == origins[j - 1]);
                assert(longer[j] == queue[j - 1]);
            }
        }
        assert forall|i: int, j: int|
            0 <= i < j < longer.len() && moves[#[trigger] from[i]].commits()
                && moves[#[trigger] from[j]].commits() implies from[i] < from[j] by {
            if i > 0 {
                assert(from[i] == origins[i - 1]);
                assert(from[j] == origins[j - 1]);
            } else {
                assert(moves[n] == moves.last());
            }
        }
    } else {
        let longer = queue.push(envelope);
        let from = origins.push(n);
        assert forall|j: int| 0 <= j < longer.len() implies 0 <= #[trigger] from[j] < moves.len()
            && moves[from[j]].routed() == Some(longer[j]) by {
            if j < queue.len() {
                assert(from[j] == origins[j]);
            }
        }
        assert forall|i: int, j: int|
            0 <= i < j < longer.len() && moves[#[trigger] from[i]].commits()
                && moves[#[trigger] from[j]].commits() implies from[i] < from[j] by {
            assert(from[i] == origins[i]);
            if j < queue.len() {
                assert(from[j] == origins[j]);
            } else {
                assert(0 <= origins[i] < init.len());
            }
        }
    }
}

/// First in, first out, over any history: of the envelopes in a queue, those that
/// were committed stand in the order of their commits. One that came back to routing
/// stands wherever it was put.
pub proof fn lemma_queues_keep_commit_order(
    states: Seq<HubView>,
    moves: Seq<Move>,
    name: Seq<char>,
)
    requires
        is_history(states, moves),
    ensures
        in_order(states.last().queue_of(name), arrivals(states, moves, name), moves),
    decreases moves.len(),
{
    if moves.len() == 0 {
        assert(HubView::initial().queue_of(name) =~= Seq::empty());
    } else {
        let n = moves.len() - 1;
        let earlier = states.drop_last();
        let init = moves.drop_last();
        assert forall|k: int| 0 <= k < init.len() implies (#[trigger] init[k]).leads(
            earlier[k],
            earlier[k + 1],
        ) by {
            assert(moves[k].leads(states[k], states[k + 1]));
        }
        lemma_queues_keep_commit_order(earlier, init, name);
        lemma_nothing_is_lost_or_doubled(earlier, init, name);
        lemma_arrivals_ignore_the_future(states, earlier, init, name);
        let before = states[n];
        let after = states[n + 1];
        let step = moves[n];
        assert(step.leads(before, after));
        assert(earlier.last() == before);
        let queue = before.queue_of(name);
        let origins = arrivals(states, init, name);
        assert forall|k: int| 0 <= k < init.len() implies #[trigger] moves[k] == init[k] by {}
        lemma_order_is_kept(queue, origins, init, moves);
        match step {
            Move::Routed { envelope, to_front, purged, outcome } => {
                before.lemma_routing_conserves(envelope, to_front, purged, outcome, after);
                if envelope.to == name && outcome is Queued {
                    let left = survivors(before.parked_at(name), envelope, purged.len());
                    before.lemma_with(name, before.enqueued(envelope, to_front), left);
                    assert(after =~= before.with_queue(
                        name,
                        before.enqueued(envelope, to_front),
                    ).with_parked(name, left));
                    lemma_arrival_keeps_order(queue, origins, moves, envelope, to_front);
                }
            },
            Move::Took { name: taker, filter } => {
                let taken_from = before.queue_of(taker);
                lemma_first_match(taken_from, filter);
                let at = first_match(taken_from, filter)->0;
                before.lemma_with(taker, taken_from.remove(at), before.parked_at(taker));
                assert(after.queue_of(taker) =~= taken_from.remove(at));
                if taker == name {
                    lemma_removal_keeps_order(queue, origins, moves, at);
                } else {
                    assert(after.queue_of(name) == queue);
                }
            },
            Move::Parked { .. } => {
                assert(after.queue_of(name) == queue);
            },
            Move::TimedOut { .. } => {
                assert(after.queue_of(name) == queue);
            },
        }
    }
}

proof fn lemma_arrivals_ignore_the_future(
    states: Seq<HubView>,
    earlier: Seq<HubView>,
    moves: Seq<Move>,
    name: Seq<char>,
)
    requires
        moves.len() <= earlier.len() <= states.len(),
        forall|k: int| 0 <= k < earlier.len() ==> #[trigger] earlier[k] == states[k],
    ensures
        arrivals(earlier, moves, name) == arrivals(states, moves, name),
    decreases moves.len(),
{
    if moves.len() > 0 {
        lemma_arrivals_ignore_the_future(states, earlier, moves.drop_last(), name);
        assert(earlier[moves.len() - 1] == states[moves.len() - 1]);
    }
}

proof fn lemma_record(moves: Seq<Move>, k: int, n: int)
    requires
        0 <= k < n <= moves.len(),
        moves[k].commits(),
    ensures
        record_of(moves, k) < audited(moves.take(n)).len(),
        audited(moves.take(n))[record_of(moves, k)] == moves[k].routed()->0,
    decreases n - k,
{
    assert(moves.take(n).drop_last() =~= moves.take(n - 1));
    assert(moves.take(n).last() == moves[n - 1]);
    if k < n - 1 {
        lemma_record(moves, k, n - 1);
    }
}

/// The order of the audit log and the order of routing agree: of two committed
/// envelopes that wait in one queue, the one in front has the earlier record, and
/// each record holds its envelope.
pub proof fn lemma_queue_order_is_audit_order(
    states: Seq<HubView>,
    moves: Seq<Move>,
    name: Seq<char>,
    i: int,
    j: int,
)
    requires
        is_history(states, moves),
        0 <= i < states.last().queue_of(name).len(),
        0 <= j < states.last().queue_of(name).len(),
        moves[arrivals(states, moves, name)[i]].commits(),
        moves[arrivals(states, moves, name)[j]].commits(),
    ensures
        ({
            let first = record_of(moves, arrivals(states, moves, name)[i]);
            let second = record_of(moves, arrivals(states, moves, name)[j]);
            &&& i < j <==> first < second
            &&& 0 <= first < audited(moves).len()
            &&& 0 <= second < audited(moves).len()
            &&& audited(moves)[first] == states.last().queue_of(name)[i]
            &&& audited(moves)[second] == states.last().queue_of(name)[j]
        }),
{
    lemma_queues_keep_commit_order(states, moves, name);
    let origins = arrivals(states, moves, name);
    assert(moves.take(moves.len() as int) =~= moves);
    lemma_record(moves, origins[i], moves.len() as int);
    lemma_record(moves, origins[j], moves.len() as int);
    if i < j {
        lemma_record(moves, origins[i], origins[j]);
    } else if j < i {
        lemma_record(moves, origins[j], origins[i]);
    }
}

impl Move {
    /// Whether this step, from `before`, hands its envelope to the waiter with id
    /// `id`.
    pub open spec fn hands_to(self, before: HubView, id: u64) -> bool {
        match self {
            Move::Routed { envelope, purged, outcome, .. } => {
                let left = survivors(before.parked_at(envelope.to), envelope, purged.len());
                &&& outcome is HandedOff
                &&& left[best(left, envelope)->0].id == id
                &&& carried(left[best(left, envelope)->0].channel) == Some(envelope)
            },
            _ => false,
        }
    }

    /// Whether this step finds the waiter with id `id` without its receiving half.
    pub open spec fn finds_gone(self, id: u64) -> bool {
        match self {
            Move::Routed { purged, .. } => purged.contains(id),
            _ => false,
        }
    }

    /// Whether this step, from `before`, is the timeout of the waiter with id `id`.
    pub open spec fn times_out(self, before: HubView, id: u64) -> bool {
        match self {
            Move::TimedOut { name, at } => before.parked_at(name)[at].id == id,
            _ => false,
        }
    }

    /// Whether the waiter with id `id` leaves by this step.
    pub open spec fn releases(self, before: HubView, id: u64) -> bool {
        self.hands_to(before, id) || self.finds_gone(id) || self.times_out(before, id)
    }
}

/// Whether a waiter with id `id` is parked under any name.
pub open spec fn waits(state: HubView, id: u64) -> bool {
    exists|name: Seq<char>| #[trigger] state.is_parked(name, id)
}

/// Whether a list has a waiter with id `id`.
pub open spec fn lists(waiters: Seq<WaiterView>, id: u64) -> bool {
    exists|i: int| 0 <= i < waiters.len() && (#[trigger] waiters[i]).id == id
}

proof fn lemma_removal_delists(waiters: Seq<WaiterView>, at: int, id: u64)
    requires
        0 <= at < waiters.len(),
        ids_grow(waiters),
    ensures
        lists(waiters.remove(at), id) <==> lists(waiters, id) && waiters[at].id != id,
{
    let rest = waiters.remove(at);
    if lists(rest, id) {
        let i = choose|i: int| 0 <= i < rest.len() && (#[trigger] rest[i]).id == id;
        let k = if i < at {
            i
        } else {
            i + 1
        };
        assert(rest[i] == waiters[k]);
        assert(waiters[k].id == id);
        if k < at {
            assert(waiters[k].id < waiters[at].id);
        } else {
            assert(waiters[at].id < waiters[k].id);
        }
    }
    if lists(waiters, id) && waiters[at].id != id {
        let k = choose|k: int| 0 <= k < waiters.len() && (#[trigger] waiters[k]).id == id;
        let i = if k < at {
            k
        } else {
            k - 1
        };
        assert(rest[i] == waiters[k]);
    }
}

proof fn lemma_survivors_list(before: HubView, envelope: EnvelopeView, purged: Seq<u64>, k: nat, id: u64)
    requires
        before.inv(),
        k <= purged.len(),
        forall|i: int|
            0 <= i < purged.len() ==> before.tried(envelope, i as nat, #[trigger] purged[i]),
    ensures
        ids_grow(survivors(before.parked_at(envelope.to), envelope, k)),
        lists(survivors(before.parked_at(envelope.to), envelope, k), id) <==> lists(
            before.parked_at(envelope.to),
            id,
        ) && !purged.take(k as int).contains(id),
    decreases k,
{
    let parked = before.parked_at(envelope.to);
    assert(ids_grow(parked)) by {
        assert forall|i: int, j: int| 0 <= i < j < parked.len() implies (#[trigger] parked[i]).id < (
        #[trigger] parked[j]).id by {
            assert(before.parked_at(envelope.to)[i].id < before.parked_at(envelope.to)[j].id);
        }
    }
    if k > 0 {
        let fewer = (k - 1) as nat;
        lemma_survivors_list(before, envelope, purged, fewer, id);
        let rest = survivors(parked, envelope, fewer);
        assert(before.tried(envelope, fewer, purged[k - 1]));
        lemma_most_specific_then_oldest(rest, envelope);
        let at = best(rest, envelope)->0;
        lemma_removal_keeps(rest, at);
        lemma_removal_delists(rest, at, id);
        let taken = purged.take(k as int);
        assert(taken =~= purged.take(fewer as int).push(purged[k - 1]));
        if taken.contains(id) {
            let i = choose|i: int| 0 <= i < taken.len() && taken[i] == id;
            if i < fewer {
                assert(purged.take(fewer as int)[i] == id);
            }
        }
        if purged.take(fewer as int).contains(id) {
            let i = choose|i: int|
                0 <= i < fewer && purged.take(fewer as int)[i] == id;
            assert(taken[i] == id);
        }
        assert(taken[fewer as int] == purged[k - 1]);
    }
}

proof fn lemma_purged_were_listed(before: HubView, envelope: EnvelopeView, purged: Seq<u64>, id: u64)
    requires
        before.inv(),
        forall|i: int|
            0 <= i < purged.len() ==> before.tried(envelope, i as nat, #[trigger] purged[i]),
        purged.contains(id),
    ensures
        lists(before.parked_at(envelope.to), id),
{
    let i = choose|i: int| 0 <= i < purged.len() && purged[i] == id;
    assert(before.tried(envelope, i as nat, purged[i]));
    let left = survivors(before.parked_at(envelope.to), envelope, i as nat);
    lemma_most_specific_then_oldest(left, envelope);
    assert(lists(left, id)) by {
        assert(left[best(left, envelope)->0].id == id);
    }
    lemma_survivors_list(before, envelope, purged, i as nat, id);
}

/// In one step from `before` to `after`, a waiter leaves exactly if the step releases
/// it, and none comes back.
pub proof fn lemma_moves_release_waiters(step: Move, before: HubView, after: HubView, id: u64)
    requires
        before.inv(),
        step.leads(before, after),
    ensures
        step.releases(before, id) ==> waits(before, id) && !waits(after, id),
        waits(before, id) && !step.releases(before, id) ==> waits(after, id),
        id < before.next_waiter_id && !waits(before, id) ==> !waits(after, id),
        before.next_waiter_id <= after.next_waiter_id,
        before.next_waiter_id <= id < after.next_waiter_id ==> waits(after, id),
{
    match step {
        Move::Routed { envelope, to_front, purged, outcome } => {
            let name = envelope.to;
            let parked = before.parked_at(name);
            let left = survivors(parked, envelope, purged.len());
            before.lemma_routing_conserves(envelope, to_front, purged, outcome, after);
            lemma_survivors_list(before, envelope, purged, purged.len(), id);
            assert(purged.take(purged.len() as int) =~= purged);
            lemma_most_specific_then_oldest(left, envelope);
            if purged.contains(id) {
                lemma_purged_were_listed(before, envelope, purged, id);
            }
            match outcome {
                SendOutcome::HandedOff => {
                    let at = best(left, envelope)->0;
                    lemma_removal_delists(left, at, id);
                    let rest = survivors(parked, envelope, purged.len() + 1);
                    assert(rest == left.remove(at));
                    before.lemma_unchanged(name);
                    before.lemma_with(name, before.queue_of(name), rest);
                    assert(after.parked_at(name) == rest);
                    if left[at].id == id {
                        assert(lists(left, id));
                    }
                },
                SendOutcome::Queued(_) => {
                    before.lemma_with(name, before.enqueued(envelope, to_front), left);
                    assert(after =~= before.with_queue(
                        name,
                        before.enqueued(envelope, to_front),
                    ).with_parked(name, left));
                    assert(after.parked_at(name) == left);
                },
            }
            assert(lists(after.parked_at(name), id) <==> lists(parked, id) && !step.releases(
                before,
                id,
            ));
            assert(step.releases(before, id) ==> lists(parked, id));
            lemma_one_list_changes(before, after, name, id);
        },
        Move::Took { name, filter } => {
            assert forall|n: Seq<char>| #[trigger] after.parked_at(n) == before.parked_at(n) by {}
            lemma_one_list_changes(before, after, name, id);
        },
        Move::Parked { name, filter, channel } => {
            let waiter = WaiterView { id: before.next_waiter_id, filter, channel };
            let longer = before.parked_at(name).push(waiter);
            before.lemma_unchanged(name);
            before.lemma_with(name, before.queue_of(name), longer);
            let middle = before.with_parked(name, longer);
            assert forall|n: Seq<char>| #[trigger] after.parked_at(n) == middle.parked_at(n) by {}
            assert(after.parked_at(name) == longer);
            assert(longer[before.parked_at(name).len() as int] == waiter);
            assert(lists(longer, id) <==> lists(before.parked_at(name), id) || id == waiter.id) by {
                if lists(before.parked_at(name), id) {
                    let i = choose|i: int|
                        0 <= i < before.parked_at(name).len() && (
                        #[trigger] before.parked_at(name)[i]).id == id;
                    assert(longer[i].id == id);
                }
                if lists(longer, id) && id != waiter.id {
                    let i = choose|i: int| 0 <= i < longer.len() && (#[trigger] longer[i]).id == id;
                    assert(before.parked_at(name)[i].id == id);
                }
            }
            lemma_one_list_changes(before, after, name, id);
        },
        Move::TimedOut { name, at } => {
            before.lemma_removal_is_exact(name, at);
            let gone = before.parked_at(name)[at].id;
            if id != gone && waits(before, id) {
                let n = choose|n: Seq<char>| #[trigger] before.is_parked(n, id);
                let i = choose|i: int|
                    0 <= i < before.parked_at(n).len() && (#[trigger] before.parked_at(n)[i]).id
                        == id;
                assert(after.parked_at(n).contains(before.parked_at(n)[i]));
                let k = choose|k: int|
                    0 <= k < after.parked_at(n).len() && after.parked_at(n)[k]
                        == before.parked_at(n)[i];
                assert(after.parked_at(n)[k].id == id);
                assert(after.is_parked(n, id));
            }
            if waits(after, id) {
                let n = choose|n: Seq<char>| #[trigger] after.is_parked(n, id);
                let k = choose|k: int|
                    0 <= k < after.parked_at(n).len() && (#[trigger] after.parked_at(n)[k]).id
                        == id;
                assert(before.parked_at(n).contains(after.parked_at(n)[k]));
                let i = choose|i: int|
                    0 <= i < before.parked_at(n).len() && before.parked_at(n)[i]
                        == after.parked_at(n)[k];
                assert(before.parked_at(n)[i].id == id);
                assert(before.is_parked(n, id));
            }
            assert(before.is_parked(name, gone));
        },
    }
}

proof fn lemma_one_list_changes(before: HubView, after: HubView, name: Seq<char>, id: u64)
    requires
        before.inv(),
        forall|n: Seq<char>| n != name ==> #[trigger] after.parked_at(n) == before.parked_at(n),
    ensures
        lists(before.parked_at(name), id) && !lists(after.parked_at(name), id) ==> waits(
            before,
            id,
        ) && !waits(after, id),
        lists(before.parked_at(name), id) == lists(after.parked_at(name), id) ==> waits(before, id)
            == waits(after, id),
        lists(after.parked_at(name), id) ==> waits(after, id),
{
    assert(before.is_parked(name, id) == lists(before.parked_at(name), id)) by {
        lemma_parked_is_listed(before, name, id);
    }
    assert(after.is_parked(name, id) == lists(after.parked_at(name), id)) by {
        lemma_parked_is_listed(after, name, id);
    }
    assert forall|n: Seq<char>| n != name implies #[trigger] after.is_parked(n, id)
        == before.is_parked(n, id) by {
        assert(after.parked_at(n) == before.parked_at(n));
    }
    assert forall|n: Seq<char>| n != name implies #[trigger] before.is_parked(n, id)
        == after.is_parked(n, id) by {
        assert(after.parked_at(n) == before.parked_at(n));
    }
    if lists(before.parked_at(name), id) {
        let i = choose|i: int|
            0 <= i < before.parked_at(name).len() && (#[trigger] before.parked_at(name)[i]).id == id;
        assert forall|n: Seq<char>| n != name implies !#[trigger] before.is_parked(n, id) by {
            if before.is_parked(n, id) {
                let k = choose|k: int|
                    0 <= k < before.parked_at(n).len() && (#[trigger] before.parked_at(n)[k]).id
                        == id;
                assert(before.parked_at(name)[i].id != before.parked_at(n)[k].id);
            }
        }
    }
}

proof fn lemma_parked_is_listed(state: HubView, name: Seq<char>, id: u64)
    ensures
        state.is_parked(name, id) == lists(state.parked_at(name), id),
{
    if state.is_parked(name, id) {
        let i = choose|i: int|
            0 <= i < state.parked_at(name).len() && (#[trigger] state.parked_at(name)[i]).id == id;
        assert(state.parked_at(name)[i].id == id);
    }
    if lists(state.parked_at(name), id) {
        let waiters = state.parked_at(name);
        let i = choose|i: int| 0 <= i < waiters.len() && (#[trigger] waiters[i]).id == id;
        assert(state.parked_at(name)[i].id == id);
    }
}

proof fn lemma_history_keeps_the_invariant(states: Seq<HubView>, moves: Seq<Move>, n: int)
    requires
        is_history(states, moves),
        0 <= n <= moves.len(),
    ensures
        states[n].inv(),
    decreases n,
{
    if n == 0 {
        assert(HubView::initial().inv());
    } else {
        lemma_history_keeps_the_invariant(states, moves, n - 1);
        assert(moves[n - 1].leads(states[n - 1], states[n]));
        lemma_moves_keep_the_invariant(moves[n - 1], states[n - 1], states[n]);
    }
}

proof fn lemma_gone_stays_gone(states: Seq<HubView>, moves: Seq<Move>, id: u64, m: int, n: int)
    requires
        is_history(states, moves),
        0 <= m <= n <= moves.len(),
        id < states[m].next_waiter_id,
        !waits(states[m], id),
    ensures
        id < states[n].next_waiter_id,
        !waits(states[n], id),
    decreases n - m,
{
    if m < n {
        lemma_gone_stays_gone(states, moves, id, m, n - 1);
        lemma_history_keeps_the_invariant(states, moves, n - 1);
        assert(moves[n - 1].leads(states[n - 1], states[n]));
        lemma_moves_release_waiters(moves[n - 1], states[n - 1], states[n], id);
    }
}

/// A waiter leaves once: whatever released it, nothing releases it again. So a
/// waiter that timed out was never handed anything, and one that was handed an
/// envelope gets no second and does not time out.
pub proof fn lemma_waiters_leave_once(
    states: Seq<HubView>,
    moves: Seq<Move>,
    id: u64,
    m: int,
    n: int,
)
    requires
        is_history(states, moves),
        0 <= m < moves.len(),
        0 <= n < moves.len(),
        moves[m].releases(states[m], id),
    ensures
        moves[n].releases(states[n], id) ==> n == m,
        moves[m].times_out(states[m], id) ==> !moves[n].hands_to(states[n], id),
        moves[m].hands_to(states[m], id) ==> !moves[n].times_out(states[n], id),
{
    if moves[n].releases(states[n], id) {
        if m < n {
            lemma_released_is_gone(states, moves, id, m, n);
        }
        if n < m {
            lemma_released_is_gone(states, moves, id, n, m);
        }
    }
}

proof fn lemma_released_is_gone(states: Seq<HubView>, moves: Seq<Move>, id: u64, m: int, n: int)
    requires
        is_history(states, moves),
        0 <= m < n < moves.len(),
        moves[m].releases(states[m], id),
    ensures
        !moves[n].releases(states[n], id),
{
    lemma_history_keeps_the_invariant(states, moves, m);
    lemma_history_keeps_the_invariant(states, moves, n);
    assert(moves[m].leads(states[m], states[m + 1]));
    assert(moves[n].leads(states[n], states[n + 1]));
    lemma_moves_release_waiters(moves[m], states[m], states[m + 1], id);
    assert(id < states[m].next_waiter_id) by {
        let name = choose|name: Seq<char>| #[trigger] states[m].is_parked(name, id);
        let i = choose|i: int|
            0 <= i < states[m].parked_at(name).len() && (#[trigger] states[m].parked_at(name)[i]).id
                == id;
        assert(states[m].parked_at(name)[i].id < states[m].next_waiter_id);
    }
    lemma_gone_stays_gone(states, moves, id, m + 1, n);
    lemma_moves_release_waiters(moves[n], states[n], states[n + 1], id);
}

/// A waiter does not vanish: every one that was ever parked is parked still, or some
/// step released it. One that is gone without having timed out was handed an
/// envelope through its channel, or was found without its receiving half.
pub proof fn lemma_waiters_leave_for_a_reason(states: Seq<HubView>, moves: Seq<Move>, id: u64)
    requires
        is_history(states, moves),
        id < states.last().next_waiter_id,
    ensures
        waits(states.last(), id) || exists|k: int|
            0 <= k < moves.len() && (#[trigger] moves[k]).releases(states[k], id),
        !waits(states.last(), id) && (forall|k: int|
            0 <= k < moves.len() ==> !(#[trigger] moves[k]).times_out(states[k], id))
            ==> exists|k: int|
            0 <= k < moves.len() && ((#[trigger] moves[k]).hands_to(states[k], id)
                || moves[k].finds_gone(id)),
    decreases moves.len(),
{
    if moves.len() > 0 {
        let n = moves.len() - 1;
        let earlier = states.drop_last();
        let init = moves.drop_last();
        assert forall|k: int| 0 <= k < init.len() implies (#[trigger] init[k]).leads(
            earlier[k],
            earlier[k + 1],
        ) by {
            assert(moves[k].leads(states[k], states[k + 1]));
        }
        assert(earlier.last() == states[n]);
        assert(states.last() == states[n + 1]);
        lemma_history_keeps_the_invariant(states, moves, n);
        assert(moves[n].leads(states[n], states[n + 1]));
        lemma_moves_release_waiters(moves[n], states[n], states[n + 1], id);
        if id < states[n].next_waiter_id {
            lemma_waiters_leave_for_a_reason(earlier, init, id);
            if !waits(states.last(), id) {
                if waits(states[n], id) {
                    assert(moves[n].releases(states[n], id));
                } else {
                    let k = choose|k: int|
                        0 <= k < init.len() && (#[trigger] init[k]).releases(earlier[k], id);
                    assert(moves[k].releases(states[k], id));
                }
            }
        }
    }
}

} // verus!
