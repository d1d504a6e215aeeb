//! Routing state: one FIFO queue of envelopes and one list of parked `await`
//! consumers per agent name.
//!
//! A `send` hands its envelope to a parked consumer whose filter it passes, or
//! queues it. An `await` takes a queued envelope that passes its filter, or parks.
//! The server keeps one [`HubState`] behind one lock, so every call below is a
//! single step of the whole hub.

use std::collections::VecDeque;
use tokio::sync::oneshot;
use vstd::prelude::*;

use crate::audit::{AuditEvent, AuditEventView};
use crate::envelope::{copy_option, text_option, Envelope, EnvelopeView};
use crate::table::NameTable;
use crate::timestamp::Timestamp;

verus! {

broadcast use vstd::std_specs::vecdeque::group_vec_dequeue_axioms;

/// The sending half of tokio's one-value channel.
#[verifier::external_type_specification]
#[verifier::external_body]
#[verifier::reject_recursive_types(T)]
pub struct ExSender<T>(oneshot::Sender<T>);

/// The receiving half of tokio's one-value channel.
#[verifier::external_type_specification]
#[verifier::external_body]
#[verifier::reject_recursive_types(T)]
pub struct ExReceiver<T>(oneshot::Receiver<T>);

/// The error of a receiving half whose sending half went away. The receiving half is
/// a `Future` that can yield it, so the declaration above needs this one.
#[verifier::external_type_specification]
#[verifier::external_body]
pub struct ExRecvError(oneshot::error::RecvError);

/// The channel that a sending half belongs to.
pub uninterp spec fn sender_channel(tx: oneshot::Sender<Envelope>) -> int;

/// The channel that a receiving half belongs to.
pub uninterp spec fn receiver_channel(rx: oneshot::Receiver<Envelope>) -> int;

/// The one value that a channel ever holds; `None` for a channel whose sending half
/// went unused.
pub uninterp spec fn carried(channel: int) -> Option<EnvelopeView>;

/// Calls `tokio::sync::oneshot::channel`. The claim is that the two halves belong to
/// one channel.
#[verifier::external_body]
fn open_channel() -> (ends: (oneshot::Sender<Envelope>, oneshot::Receiver<Envelope>))
    ensures
        sender_channel(ends.0) == receiver_channel(ends.1),
{
    oneshot::channel()
}

/// Calls `tokio::sync::oneshot::Sender::send`, which uses the sending half up. The
/// claims are that on success the channel holds the envelope, and that otherwise the
/// envelope comes back unchanged and the channel never holds anything. Which of the
/// two it is depends on whether the receiving half still exists, and nothing is
/// claimed of that.
#[verifier::external_body]
fn hand_over(tx: oneshot::Sender<Envelope>, envelope: Envelope) -> (sent: Result<(), Envelope>)
    ensures
        match sent {
            Ok(_) => carried(sender_channel(tx)) == Some(envelope@),
            Err(returned) => returned@ == envelope@ && carried(sender_channel(tx)) is None,
        },
{
    tx.send(envelope)
}

/// Which envelopes an `await` takes. An absent condition holds of every envelope;
/// an envelope must meet both.
#[derive(Debug)]
pub struct Filter {
    /// The envelope's `correlationId` must equal this id.
    pub reply_to: Option<String>,
    /// The envelope's `kind` must equal this kind.
    pub kind: Option<String>,
}

/// The contents of a [`Filter`].
pub struct FilterView {
    pub reply_to: Option<Seq<char>>,
    pub kind: Option<Seq<char>>,
}

impl View for Filter {
    type V = FilterView;

    open spec fn view(&self) -> FilterView {
        FilterView { reply_to: text_option(self.reply_to), kind: text_option(self.kind) }
    }
}

impl FilterView {
    /// Whether `envelope` meets every condition of the filter.
    pub open spec fn passes(self, envelope: EnvelopeView) -> bool {
        &&& self.reply_to is Some ==> envelope.correlation_id == self.reply_to
        &&& self.kind is Some ==> envelope.kind == self.kind->0
    }

    /// How specific the filter is: reply-to plus kind, then reply-to, then kind,
    /// then unfiltered.
    pub open spec fn rank(self) -> nat {
        (if self.reply_to is Some {
            2nat
        } else {
            0nat
        }) + (if self.kind is Some {
            1nat
        } else {
            0nat
        })
    }

    /// The filter without conditions.
    pub open spec fn any() -> FilterView {
        FilterView { reply_to: None, kind: None }
    }
}

impl Filter {
    /// Whether `envelope` meets every condition of the filter.
    pub fn passes(&self, envelope: &Envelope) -> (passes: bool)
        ensures
            passes == self@.passes(envelope@),
            passes <==> {
                &&& self.reply_to matches Some(wanted) ==> (envelope.correlation_id matches Some(id)
                    && id@ == wanted@)
                &&& self.kind matches Some(wanted) ==> envelope.kind@ == wanted@
            },
    {
        if let Some(wanted) = &self.reply_to {
            match &envelope.correlation_id {
                Some(id) => {
                    if *id != *wanted {
                        return false;
                    }
                },
                None => {
                    return false;
                },
            }
        }
        if let Some(wanted) = &self.kind {
            if envelope.kind != *wanted {
                return false;
            }
        }
        true
    }

    fn rank(&self) -> (rank: u8)
        ensures
            rank == self@.rank(),
    {
        let by_reply: u8 = if self.reply_to.is_some() {
            2
        } else {
            0
        };
        let by_kind: u8 = if self.kind.is_some() {
            1
        } else {
            0
        };
        by_reply + by_kind
    }
}

impl Clone for Filter {
    fn clone(&self) -> (copy: Self)
        ensures
            copy@ == self@,
            copy.reply_to is Some <==> self.reply_to is Some,
            copy.reply_to is Some ==> copy.reply_to->0@ == self.reply_to->0@,
            copy.kind is Some <==> self.kind is Some,
            copy.kind is Some ==> copy.kind->0@ == self.kind->0@,
    {
        Filter { reply_to: copy_option(&self.reply_to), kind: copy_option(&self.kind) }
    }
}

/// One parked `await` consumer.
struct Waiter {
    /// Names this waiter to its own timeout.
    id: u64,
    filter: Filter,
    /// Sending through it passes the envelope to the waiter's connection.
    tx: oneshot::Sender<Envelope>,
}

/// A parked consumer: its id, what it waits for, and the channel it listens to.
pub struct WaiterView {
    pub id: u64,
    pub filter: FilterView,
    pub channel: int,
}

impl View for Waiter {
    type V = WaiterView;

    closed spec fn view(&self) -> WaiterView {
        WaiterView { id: self.id, filter: self.filter@, channel: sender_channel(self.tx) }
    }
}

/// Whether `i` is the waiter that gets `envelope`: its filter passes, no other
/// passing filter is more specific, and no equally specific one is older. Waiters
/// stand in order of arrival.
pub open spec fn is_best(waiters: Seq<WaiterView>, envelope: EnvelopeView, i: int) -> bool {
    &&& 0 <= i < waiters.len()
    &&& waiters[i].filter.passes(envelope)
    &&& forall|j: int|
        0 <= j < waiters.len() && (#[trigger] waiters[j]).filter.passes(envelope) ==> {
            ||| waiters[j].filter.rank() < waiters[i].filter.rank()
            ||| waiters[j].filter.rank() == waiters[i].filter.rank() && i <= j
        }
}

/// The waiter that gets `envelope`, if any may have it.
pub open spec fn best(waiters: Seq<WaiterView>, envelope: EnvelopeView) -> Option<int> {
    if exists|i: int| is_best(waiters, envelope, i) {
        Some(choose|i: int| is_best(waiters, envelope, i))
    } else {
        None
    }
}

/// The waiters that are left once the best one for `envelope` has been taken away
/// `taken` times over.
pub open spec fn survivors(
    waiters: Seq<WaiterView>,
    envelope: EnvelopeView,
    taken: nat,
) -> Seq<WaiterView>
    decreases taken,
{
    if taken == 0 {
        waiters
    } else {
        let rest = survivors(waiters, envelope, (taken - 1) as nat);
        match best(rest, envelope) {
            Some(i) => rest.remove(i),
            None => rest,
        }
    }
}

/// Whether `i` is the first envelope of `queue` that passes `filter`.
pub open spec fn is_first_match(queue: Seq<EnvelopeView>, filter: FilterView, i: int) -> bool {
    &&& 0 <= i < queue.len()
    &&& filter.passes(queue[i])
    &&& forall|j: int| 0 <= j < i ==> !filter.passes(#[trigger] queue[j])
}

/// The first envelope of `queue` that passes `filter`.
pub open spec fn first_match(queue: Seq<EnvelopeView>, filter: FilterView) -> Option<int> {
    if exists|i: int| is_first_match(queue, filter, i) {
        Some(choose|i: int| is_first_match(queue, filter, i))
    } else {
        None
    }
}

/// The contents of a [`HubState`].
#[verifier::ext_equal]
pub struct HubView {
    /// Queued envelopes by destination, oldest first.
    pub queues: Map<Seq<char>, Seq<EnvelopeView>>,
    /// Parked consumers by agent name, oldest first.
    pub waiters: Map<Seq<char>, Seq<WaiterView>>,
    /// The id that the next parked consumer gets.
    pub next_waiter_id: u64,
}

impl HubView {
    /// What is queued for `name`.
    pub open spec fn queue_of(self, name: Seq<char>) -> Seq<EnvelopeView> {
        if self.queues.contains_key(name) {
            self.queues[name]
        } else {
            Seq::empty()
        }
    }

    /// Who is parked for `name`.
    pub open spec fn parked_at(self, name: Seq<char>) -> Seq<WaiterView> {
        if self.waiters.contains_key(name) {
            self.waiters[name]
        } else {
            Seq::empty()
        }
    }

    /// The state with `queue` as the queue of `name`; an empty queue has no entry.
    pub open spec fn with_queue(self, name: Seq<char>, queue: Seq<EnvelopeView>) -> HubView {
        HubView {
            queues: if queue.len() == 0 {
                self.queues.remove(name)
            } else {
                self.queues.insert(name, queue)
            },
            ..self
        }
    }

    /// The state with `waiters` as those parked for `name`; an empty list has no
    /// entry.
    pub open spec fn with_parked(self, name: Seq<char>, waiters: Seq<WaiterView>) -> HubView {
        HubView {
            waiters: if waiters.len() == 0 {
                self.waiters.remove(name)
            } else {
                self.waiters.insert(name, waiters)
            },
            ..self
        }
    }

    /// A name has an entry only while something is queued or parked under it.
    pub open spec fn no_empty_entries(self) -> bool {
        &&& forall|name: Seq<char>| #[trigger]
            self.queues.contains_key(name) ==> self.queues[name].len() > 0
        &&& forall|name: Seq<char>| #[trigger]
            self.waiters.contains_key(name) ==> self.waiters[name].len() > 0
    }

    /// Every queued envelope stands in the queue of its own destination.
    pub open spec fn addressed(self) -> bool {
        forall|name: Seq<char>, j: int|
            0 <= j < self.queue_of(name).len() ==> (#[trigger] self.queue_of(name)[j]).to == name
    }

    /// No queued envelope passes the filter of a consumer parked for its
    /// destination.
    pub open spec fn settled(self) -> bool {
        forall|name: Seq<char>, i: int, j: int|
            0 <= i < self.parked_at(name).len() && 0 <= j < self.queue_of(name).len()
                ==> !(#[trigger] self.parked_at(name)[i]).filter.passes(
                #[trigger] self.queue_of(name)[j],
            )
    }

    /// Waiter ids were all given out already, grow with arrival, and none is used
    /// under two names.
    pub open spec fn ids_in_order(self) -> bool {
        &&& forall|name: Seq<char>, i: int|
            0 <= i < self.parked_at(name).len() ==> (#[trigger] self.parked_at(name)[i]).id
                < self.next_waiter_id
        &&& forall|name: Seq<char>, i: int, j: int|
            0 <= i < j < self.parked_at(name).len() ==> (#[trigger] self.parked_at(name)[i]).id < (
            #[trigger] self.parked_at(name)[j]).id
        &&& forall|name: Seq<char>, other: Seq<char>, i: int, j: int|
            0 <= i < self.parked_at(name).len() && 0 <= j < self.parked_at(other).len() && name
                != other ==> (#[trigger] self.parked_at(name)[i]).id != (
            #[trigger] self.parked_at(other)[j]).id
    }

    /// What holds of the routing state between any two steps.
    pub open spec fn inv(self) -> bool {
        &&& self.no_empty_entries()
        &&& self.addressed()
        &&& self.settled()
        &&& self.ids_in_order()
    }

    /// The hub at startup.
    pub open spec fn initial() -> HubView {
        HubView { queues: Map::empty(), waiters: Map::empty(), next_waiter_id: 0 }
    }
}

impl HubView {
    /// Whether the `k`th consumer tried for `envelope` has id `id`, and nothing went
    /// into its channel.
    pub open spec fn tried(self, envelope: EnvelopeView, k: nat, id: u64) -> bool {
        let left = survivors(self.parked_at(envelope.to), envelope, k);
        &&& best(left, envelope) is Some
        &&& left[best(left, envelope)->0].id == id
        &&& carried(left[best(left, envelope)->0].channel) is None
    }

    /// Routing `envelope` from this state, when the consumers `purged` turn out to
    /// be gone: the best consumer that is left gets the envelope through its channel,
    /// and if none is left that may have it, it joins the queue of its destination,
    /// at the front if `to_front`. Nothing else changes.
    pub open spec fn routes_to(
        self,
        envelope: EnvelopeView,
        to_front: bool,
        purged: Seq<u64>,
        outcome: SendOutcome,
        after: HubView,
    ) -> bool {
        let name = envelope.to;
        let waiters = self.parked_at(name);
        let left = survivors(waiters, envelope, purged.len());
        &&& forall|k: int|
            0 <= k < purged.len() ==> self.tried(envelope, k as nat, #[trigger] purged[k])
        &&& match outcome {
            SendOutcome::HandedOff => {
                &&& best(left, envelope) is Some
                &&& carried(left[best(left, envelope)->0].channel) == Some(envelope)
                &&& after == self.with_parked(
                    name,
                    survivors(waiters, envelope, purged.len() + 1),
                )
            },
            SendOutcome::Queued(depth) => {
                &&& best(left, envelope) is None
                &&& depth == self.queue_of(name).len() + 1
                &&& after == self.with_parked(name, left).with_queue(
                    name,
                    self.enqueued(envelope, to_front),
                )
            },
        }
    }

    /// The queue of its destination once `envelope` has joined it.
    pub open spec fn enqueued(self, envelope: EnvelopeView, to_front: bool) -> Seq<EnvelopeView> {
        if to_front {
            seq![envelope] + self.queue_of(envelope.to)
        } else {
            self.queue_of(envelope.to).push(envelope)
        }
    }
}

/// An envelope that is about to be accepted: validated and stamped. What is recorded
/// of it and what is routed are one envelope.
#[derive(Debug)]
pub struct Submission {
    envelope: Envelope,
}

impl View for Submission {
    type V = EnvelopeView;

    closed spec fn view(&self) -> EnvelopeView {
        self.envelope@
    }
}

impl Submission {
    /// Submits `envelope`.
    pub fn new(envelope: Envelope) -> (submission: Submission)
        ensures
            submission@ == envelope@,
    {
        Submission { envelope }
    }

    /// The envelope's id.
    pub fn id(&self) -> (id: &String)
        ensures
            id@ == self@.id,
    {
        &self.envelope.id
    }

    /// The audit record of the acceptance: the whole envelope.
    pub fn record(&self, ts: Timestamp) -> (event: AuditEvent)
        ensures
            event@ == (AuditEventView::Accepted { ts, envelope: self@ }),
    {
        AuditEvent::Accepted { ts, envelope: self.envelope.clone() }
    }
}

/// How a committed envelope was routed.
#[derive(Debug, Clone, Copy, PartialEq, Eq)]
pub enum SendOutcome {
    /// A parked consumer has it; its connection now owns the delivery.
    HandedOff,
    /// It is queued for its destination, which now holds this many envelopes.
    Queued(usize),
}

/// What routing one envelope did.
#[derive(Debug)]
pub struct Routed {
    /// Ids of the consumers that were found gone and taken off the list, in the
    /// order in which they were tried.
    pub purged: Vec<u64>,
    pub outcome: SendOutcome,
}

/// How an `await` begins.
pub enum AwaitStart {
    /// A queued envelope passed the filter and was taken off its queue.
    Immediate(Envelope),
    /// Nothing queued passed. A waiter with this id is parked; an envelope handed
    /// to it arrives through `rx`.
    Parked { waiter_id: u64, rx: oneshot::Receiver<Envelope> },
}

spec fn envelope_views(envelopes: Seq<Envelope>) -> Seq<EnvelopeView> {
    envelopes.map_values(|envelope: Envelope| envelope@)
}

spec fn waiter_views(waiters: Seq<Waiter>) -> Seq<WaiterView> {
    waiters.map_values(|waiter: Waiter| waiter@)
}

/// All queues and parked consumers of the hub.
pub struct HubState {
    queues: NameTable<VecDeque<Envelope>>,
    waiters: NameTable<Vec<Waiter>>,
    next_waiter_id: u64,
}

impl View for HubState {
    type V = HubView;

    closed spec fn view(&self) -> HubView {
        HubView {
            queues: self.queues@.map_values(|queue: VecDeque<Envelope>| envelope_views(queue@)),
            waiters: self.waiters@.map_values(|waiters: Vec<Waiter>| waiter_views(waiters@)),
            next_waiter_id: self.next_waiter_id,
        }
    }
}

impl HubState {
    /// The state is well formed and its contents keep the routing invariant.
    pub closed spec fn wf(&self) -> bool {
        &&& self.queues.wf()
        &&& self.waiters.wf()
        &&& self@.inv()
    }
}

proof fn lemma_best_is(waiters: Seq<WaiterView>, envelope: EnvelopeView, i: int)
    requires
        is_best(waiters, envelope, i),
    ensures
        best(waiters, envelope) == Some(i),
{
    let chosen = choose|k: int| is_best(waiters, envelope, k);
    assert(is_best(waiters, envelope, chosen));
    assert(waiters[chosen].filter.passes(envelope));
    assert(waiters[i].filter.passes(envelope));
}

proof fn lemma_best_none(waiters: Seq<WaiterView>, envelope: EnvelopeView)
    requires
        forall|j: int|
            0 <= j < waiters.len() ==> !(#[trigger] waiters[j]).filter.passes(envelope),
    ensures
        best(waiters, envelope) is None,
{
}

proof fn lemma_first_match_is(queue: Seq<EnvelopeView>, filter: FilterView, i: int)
    requires
        is_first_match(queue, filter, i),
    ensures
        first_match(queue, filter) == Some(i),
{
    let chosen = choose|k: int| is_first_match(queue, filter, k);
    assert(is_first_match(queue, filter, chosen));
    if chosen < i {
        assert(!filter.passes(queue[chosen]));
    }
    if i < chosen {
        assert(!filter.passes(queue[i]));
    }
}

/// Index of the waiter that gets `envelope`.
fn best_waiter(waiters: &Vec<Waiter>, envelope: &Envelope) -> (found: Option<usize>)
    ensures
        match found {
            Some(i) => i < waiters@.len() && best(waiter_views(waiters@), envelope@) == Some(
                i as int,
            ),
            None => best(waiter_views(waiters@), envelope@) is None && forall|j: int|
                0 <= j < waiters@.len() ==> !(
                #[trigger] waiter_views(waiters@)[j]).filter.passes(envelope@),
        },
{
    let ghost views = waiter_views(waiters@);
    let mut found: Option<usize> = None;
    let mut i: usize = 0;
    while i < waiters.len()
        invariant
            i <= waiters@.len(),
            views == waiter_views(waiters@),
            match found {
                Some(b) => {
                    &&& b < i
                    &&& views[b as int].filter.passes(envelope@)
                    &&& forall|j: int|
                        0 <= j < i && (#[trigger] views[j]).filter.passes(envelope@) ==> {
                            ||| views[j].filter.rank() < views[b as int].filter.rank()
                            ||| views[j].filter.rank() == views[b as int].filter.rank() && b <= j
                        }
                },
                None => forall|j: int|
                    0 <= j < i ==> !(#[trigger] views[j]).filter.passes(envelope@),
            },
        decreases waiters@.len() - i,
    {
        let waiter = &waiters[i];
        assert(views[i as int] == waiter@);
        if waiter.filter.passes(envelope) {
            match found {
                Some(b) => {
                    assert(views[b as int] == waiters@[b as int]@);
                    if waiters[b].filter.rank() < waiter.filter.rank() {
                        found = Some(i);
                    }
                },
                None => {
                    found = Some(i);
                },
            }
        }
        i = i + 1;
    }
    proof {
        match found {
            Some(b) => {
                assert(is_best(views, envelope@, b as int));
                lemma_best_is(views, envelope@, b as int);
            },
            None => {
                lemma_best_none(views, envelope@);
            },
        }
    }
    found
}

/// Index of the first queued envelope that passes `filter`.
fn first_passing(queue: &VecDeque<Envelope>, filter: &Filter) -> (found: Option<usize>)
    ensures
        match found {
            Some(i) => i < queue@.len() && first_match(envelope_views(queue@), filter@) == Some(
                i as int,
            ),
            None => first_match(envelope_views(queue@), filter@) is None && forall|j: int|
                0 <= j < queue@.len() ==> !filter@.passes(
                    #[trigger] envelope_views(queue@)[j],
                ),
        },
{
    let ghost views = envelope_views(queue@);
    let mut i: usize = 0;
    while i < queue.len()
        invariant
            i <= queue@.len(),
            views == envelope_views(queue@),
            forall|j: int| 0 <= j < i ==> !filter@.passes(#[trigger] views[j]),
        decreases queue@.len() - i,
    {
        assert(views[i as int] == queue@[i as int]@);
        if filter.passes(&queue[i]) {
            proof {
                assert(is_first_match(views, filter@, i as int));
                lemma_first_match_is(views, filter@, i as int);
            }
            return Some(i);
        }
        i = i + 1;
    }
    None
}

/// Whether ids grow along the list.
pub open spec fn ids_grow(waiters: Seq<WaiterView>) -> bool {
    forall|i: int, j: int|
        0 <= i < j < waiters.len() ==> (#[trigger] waiters[i]).id < (#[trigger] waiters[j]).id
}

pub(crate) proof fn lemma_removal_keeps(waiters: Seq<WaiterView>, at: int)
    requires
        0 <= at < waiters.len(),
        ids_grow(waiters),
    ensures
        ids_grow(waiters.remove(at)),
        forall|i: int|
            0 <= i < waiters.remove(at).len() ==> waiters.contains(
                #[trigger] waiters.remove(at)[i],
            ),
{
    let rest = waiters.remove(at);
    assert forall|i: int| 0 <= i < rest.len() implies waiters.contains(#[trigger] rest[i]) by {
        assert(rest[i] == waiters[if i < at { i } else { i + 1 }]);
    }
    assert forall|i: int, j: int| 0 <= i < j < rest.len() implies (#[trigger] rest[i]).id < (
    #[trigger] rest[j]).id by {
        assert(rest[i] == waiters[if i < at { i } else { i + 1 }]);
        assert(rest[j] == waiters[if j < at { j } else { j + 1 }]);
    }
}

proof fn lemma_survivors(waiters: Seq<WaiterView>, envelope: EnvelopeView, taken: nat)
    requires
        ids_grow(waiters),
    ensures
        ids_grow(survivors(waiters, envelope, taken)),
        forall|i: int|
            0 <= i < survivors(waiters, envelope, taken).len() ==> waiters.contains(
                #[trigger] survivors(waiters, envelope, taken)[i],
            ),
    decreases taken,
{
    if taken > 0 {
        let rest = survivors(waiters, envelope, (taken - 1) as nat);
        lemma_survivors(waiters, envelope, (taken - 1) as nat);
        if best(rest, envelope) is Some {
            let at = best(rest, envelope)->0;
            assert(is_best(rest, envelope, at));
            lemma_removal_keeps(rest, at);
            let left = survivors(waiters, envelope, taken);
            assert(left == rest.remove(at));
            assert forall|i: int| 0 <= i < left.len() implies waiters.contains(
                #[trigger] left[i],
            ) by {
                assert(rest.contains(left[i]));
                let k = choose|k: int| 0 <= k < rest.len() && rest[k] == left[i];
                assert(waiters.contains(rest[k]));
            }
        }
    }
}

impl HubView {
    pub(crate) proof fn lemma_with(self, name: Seq<char>, queue: Seq<EnvelopeView>, waiters: Seq<WaiterView>)
        ensures
            ({
                let after = self.with_queue(name, queue).with_parked(name, waiters);
                &&& forall|n: Seq<char>|
                    #![trigger after.queue_of(n)]
                    after.queue_of(n) == if n == name {
                        queue
                    } else {
                        self.queue_of(n)
                    }
                &&& forall|n: Seq<char>|
                    #![trigger after.parked_at(n)]
                    after.parked_at(n) == if n == name {
                        waiters
                    } else {
                        self.parked_at(n)
                    }
                &&& self.no_empty_entries() ==> after.no_empty_entries()
            }),
    {
        let after = self.with_queue(name, queue).with_parked(name, waiters);
        assert(after.queue_of(name) =~= queue);
        assert(after.parked_at(name) =~= waiters);
    }

    pub(crate) proof fn lemma_unchanged(self, name: Seq<char>)
        requires
            self.no_empty_entries(),
        ensures
            self.with_queue(name, self.queue_of(name)) == self,
            self.with_parked(name, self.parked_at(name)) == self,
    {
        assert(self.with_queue(name, self.queue_of(name)) =~= self);
        assert(self.with_parked(name, self.parked_at(name)) =~= self);
    }

    /// The invariant survives a step that touches only what is queued and parked
    /// under one name.
    proof fn lemma_inv_step(self, after: HubView, name: Seq<char>)
        requires
            self.inv(),
            after.no_empty_entries(),
            self.next_waiter_id <= after.next_waiter_id,
            forall|n: Seq<char>|
                n != name ==> #[trigger] after.queue_of(n) == self.queue_of(n),
            forall|n: Seq<char>|
                n != name ==> #[trigger] after.parked_at(n) == self.parked_at(n),
            forall|j: int|
                0 <= j < after.queue_of(name).len() ==> (#[trigger] after.queue_of(name)[j]).to
                    == name,
            forall|i: int, j: int|
                0 <= i < after.parked_at(name).len() && 0 <= j < after.queue_of(name).len()
                    ==> !(#[trigger] after.parked_at(name)[i]).filter.passes(
                    #[trigger] after.queue_of(name)[j],
                ),
            ids_grow(after.parked_at(name)),
            forall|i: int|
                0 <= i < after.parked_at(name).len() ==> {
                    let waiter = #[trigger] after.parked_at(name)[i];
                    ||| self.parked_at(name).contains(waiter)
                    ||| self.next_waiter_id <= waiter.id < after.next_waiter_id
                },
        ensures
            after.inv(),
    {
        assert forall|n: Seq<char>, i: int| 0 <= i < after.parked_at(n).len() implies (
        #[trigger] after.parked_at(n)[i]).id < after.next_waiter_id by {
            if n == name {
                let waiter = after.parked_at(name)[i];
                if self.parked_at(name).contains(waiter) {
                    let k = choose|k: int|
                        0 <= k < self.parked_at(name).len() && self.parked_at(name)[k] == waiter;
                    assert(self.parked_at(name)[k].id < self.next_waiter_id);
                }
            } else {
                assert(self.parked_at(n)[i].id < self.next_waiter_id);
            }
        }
        assert forall|n: Seq<char>, o: Seq<char>, i: int, j: int|
            0 <= i < after.parked_at(n).len() && 0 <= j < after.parked_at(o).len() && n
                != o implies (#[trigger] after.parked_at(n)[i]).id != (
        #[trigger] after.parked_at(o)[j]).id by {
            if n == name {
                self.lemma_foreign_id(after, name, i, o, j);
            } else if o == name {
                self.lemma_foreign_id(after, name, j, n, i);
            } else {
                assert(self.parked_at(n)[i].id != self.parked_at(o)[j].id);
            }
        }
        assert forall|n: Seq<char>, i: int, j: int|
            0 <= i < j < after.parked_at(n).len() implies (#[trigger] after.parked_at(n)[i]).id < (
        #[trigger] after.parked_at(n)[j]).id by {
            if n != name {
                assert(self.parked_at(n)[i].id < self.parked_at(n)[j].id);
            }
        }
        assert forall|n: Seq<char>, i: int, j: int|
            0 <= i < after.parked_at(n).len() && 0 <= j < after.queue_of(n).len() implies !(
        #[trigger] after.parked_at(n)[i]).filter.passes(#[trigger] after.queue_of(n)[j]) by {
            if n != name {
                assert(!self.parked_at(n)[i].filter.passes(self.queue_of(n)[j]));
            }
        }
        assert forall|n: Seq<char>, j: int| 0 <= j < after.queue_of(n).len() implies (
        #[trigger] after.queue_of(n)[j]).to == n by {
            if n != name {
                assert(self.queue_of(n)[j].to == n);
            }
        }
    }

    proof fn lemma_foreign_id(self, after: HubView, name: Seq<char>, i: int, other: Seq<char>, j: int)
        requires
            self.inv(),
            name != other,
            after.parked_at(other) == self.parked_at(other),
            0 <= i < after.parked_at(name).len(),
            0 <= j < after.parked_at(other).len(),
            self.parked_at(name).contains(after.parked_at(name)[i]) || self.next_waiter_id
                <= after.parked_at(name)[i].id,
        ensures
            after.parked_at(name)[i].id != after.parked_at(other)[j].id,
    {
        let waiter = after.parked_at(name)[i];
        assert(self.parked_at(other)[j].id < self.next_waiter_id);
        if self.parked_at(name).contains(waiter) {
            let k = choose|k: int|
                0 <= k < self.parked_at(name).len() && self.parked_at(name)[k] == waiter;
            assert(self.parked_at(name)[k].id != self.parked_at(other)[j].id);
        }
    }
}

impl HubState {
    spec fn tables_wf(&self) -> bool {
        self.queues.wf() && self.waiters.wf()
    }

    /// The hub at startup: nothing queued, nobody parked.
    pub fn new() -> (state: HubState)
        ensures
            state.wf(),
            state@ == HubView::initial(),
            forall|name: Seq<char>| #[trigger] state@.queue_of(name) == Seq::<EnvelopeView>::empty(),
            forall|name: Seq<char>| #[trigger] state@.parked_at(name) == Seq::<WaiterView>::empty(),
    {
        let state = HubState {
            queues: NameTable::new(),
            waiters: NameTable::new(),
            next_waiter_id: 0,
        };
        assert(state@ =~= HubView::initial());
        state
    }

    /// Between any two steps the routing invariant holds.
    pub proof fn lemma_routing_invariant(&self)
        requires
            self.wf(),
        ensures
            self@.inv(),
            forall|name: Seq<char>, j: int|
                0 <= j < self@.queue_of(name).len() ==> (#[trigger] self@.queue_of(name)[j]).to
                    == name,
            forall|name: Seq<char>, i: int, j: int|
                0 <= i < self@.parked_at(name).len() && 0 <= j < self@.queue_of(name).len() ==> !(
                #[trigger] self@.parked_at(name)[i]).filter.passes(
                    #[trigger] self@.queue_of(name)[j],
                ),
            forall|name: Seq<char>, i: int, j: int|
                0 <= i < j < self@.parked_at(name).len() ==> (#[trigger] self@.parked_at(
                    name,
                )[i]).id < (#[trigger] self@.parked_at(name)[j]).id,
    {
    }

    fn lift_queue(&mut self, name: &str) -> (queue: VecDeque<Envelope>)
        requires
            old(self).tables_wf(),
        ensures
            final(self).tables_wf(),
            final(self)@ == old(self)@.with_queue(name@, Seq::empty()),
            envelope_views(queue@) == old(self)@.queue_of(name@),
    {
        let queue = match self.queues.take(name) {
            Some(queue) => queue,
            None => VecDeque::new(),
        };
        assert(self@ =~= old(self)@.with_queue(name@, Seq::empty()));
        assert(envelope_views(queue@) =~= old(self)@.queue_of(name@));
        queue
    }

    fn lower_queue(&mut self, name: String, queue: VecDeque<Envelope>)
        requires
            old(self).tables_wf(),
            !old(self)@.queues.contains_key(name@),
        ensures
            final(self).tables_wf(),
            final(self)@ == old(self)@.with_queue(name@, envelope_views(queue@)),
    {
        let ghost key = name@;
        let ghost contents = envelope_views(queue@);
        if queue.len() > 0 {
            self.queues.insert(name, queue);
        }
        assert(self@ =~= old(self)@.with_queue(key, contents));
    }

    fn lift_waiters(&mut self, name: &str) -> (waiters: Vec<Waiter>)
        requires
            old(self).tables_wf(),
        ensures
            final(self).tables_wf(),
            final(self)@ == old(self)@.with_parked(name@, Seq::empty()),
            waiter_views(waiters@) == old(self)@.parked_at(name@),
    {
        let waiters = match self.waiters.take(name) {
            Some(waiters) => waiters,
            None => Vec::new(),
        };
        assert(self@ =~= old(self)@.with_parked(name@, Seq::empty()));
        assert(waiter_views(waiters@) =~= old(self)@.parked_at(name@));
        waiters
    }

    fn lower_waiters(&mut self, name: String, waiters: Vec<Waiter>)
        requires
            old(self).tables_wf(),
            !old(self)@.waiters.contains_key(name@),
        ensures
            final(self).tables_wf(),
            final(self)@ == old(self)@.with_parked(name@, waiter_views(waiters@)),
    {
        let ghost key = name@;
        let ghost contents = waiter_views(waiters@);
        if waiters.len() > 0 {
            self.waiters.insert(name, waiters);
        }
        assert(self@ =~= old(self)@.with_parked(key, contents));
    }
}

impl HubState {
    fn route(&mut self, envelope: Envelope, to_front: bool) -> (routed: Routed)
        requires
            old(self).wf(),
        ensures
            final(self).wf(),
            old(self)@.routes_to(
                envelope@,
                to_front,
                routed.purged@,
                routed.outcome,
                final(self)@,
            ),
    {
        let ghost before = self@;
        let ghost sent = envelope@;
        let ghost name = envelope@.to;
        let ghost parked = before.parked_at(name);
        let to = envelope.to.clone();
        let mut current = envelope;
        let mut purged: Vec<u64> = Vec::new();
        let mut waiters = self.lift_waiters(to.as_str());
        loop
            invariant
                self.tables_wf(),
                before == old(self)@,
                before.inv(),
                sent == envelope@,
                sent.to == name,
                parked == before.parked_at(name),
                self@ == before.with_parked(name, Seq::empty()),
                to@ == name,
                current@ == sent,
                waiter_views(waiters@) == survivors(parked, sent, purged@.len()),
                forall|k: int|
                    0 <= k < purged@.len() ==> before.tried(sent, k as nat, #[trigger] purged@[k]),
            ensures
                self.tables_wf(),
                before.inv(),
                self@ == before.with_parked(name, Seq::empty()),
                to@ == name,
                current@ == sent,
                waiter_views(waiters@) == survivors(parked, sent, purged@.len()),
                forall|k: int|
                    0 <= k < purged@.len() ==> before.tried(sent, k as nat, #[trigger] purged@[k]),
                best(survivors(parked, sent, purged@.len()), sent) is None,
                forall|j: int|
                    0 <= j < waiters@.len() ==> !(
                    #[trigger] waiter_views(waiters@)[j]).filter.passes(sent),
            decreases waiters@.len(),
        {
            match best_waiter(&waiters, &current) {
                None => {
                    break;
                },
                Some(at) => {
                    let ghost left = waiter_views(waiters@);
                    let Waiter { id, filter: _, tx } = waiters.remove(at);
                    assert(waiter_views(waiters@) =~= left.remove(at as int));
                    match hand_over(tx, current) {
                        Ok(_) => {
                            self.lower_waiters(to, waiters);
                            proof {
                                before.lemma_after_handoff(sent, purged@.len());
                                assert(self@ =~= before.with_parked(
                                    name,
                                    survivors(parked, sent, purged@.len() + 1),
                                ));
                            }
                            return Routed { purged, outcome: SendOutcome::HandedOff };
                        },
                        Err(returned) => {
                            assert(left[at as int].id == id);
                            assert(before.tried(sent, purged@.len(), id));
                            purged.push(id);
                            current = returned;
                        },
                    }
                },
            }
        }
        self.lower_waiters(to.clone(), waiters);
        let ghost left = survivors(parked, sent, purged@.len());
        assert(self@ =~= before.with_parked(name, left));
        let mut queue = self.lift_queue(to.as_str());
        proof {
            assert(before.with_parked(name, left).queue_of(name) == before.queue_of(name));
        }
        if to_front {
            queue.push_front(current);
        } else {
            queue.push_back(current);
        }
        assert(envelope_views(queue@) =~= before.enqueued(sent, to_front));
        let depth = queue.len();
        self.lower_queue(to, queue);
        proof {
            before.lemma_after_queueing(sent, to_front, purged@.len());
            assert(self@ =~= before.with_parked(name, left).with_queue(
                name,
                before.enqueued(sent, to_front),
            ));
        }
        Routed { purged, outcome: SendOutcome::Queued(depth) }
    }
}

impl HubView {
    pub(crate) proof fn lemma_after_handoff(self, envelope: EnvelopeView, gone: nat)
        requires
            self.inv(),
        ensures
            self.with_parked(
                envelope.to,
                survivors(self.parked_at(envelope.to), envelope, gone + 1),
            ).inv(),
    {
        let name = envelope.to;
        let parked = self.parked_at(name);
        let left = survivors(parked, envelope, gone + 1);
        lemma_survivors(parked, envelope, gone + 1);
        self.lemma_with(name, self.queue_of(name), left);
        self.lemma_unchanged(name);
        let after = self.with_parked(name, left);
        assert forall|i: int, j: int|
            0 <= i < after.parked_at(name).len() && 0 <= j < after.queue_of(name).len() implies !(
        #[trigger] after.parked_at(name)[i]).filter.passes(#[trigger] after.queue_of(name)[j]) by {
            assert(parked.contains(left[i]));
            let k = choose|k: int| 0 <= k < parked.len() && parked[k] == left[i];
            assert(!self.parked_at(name)[k].filter.passes(self.queue_of(name)[j]));
        }
        self.lemma_inv_step(after, name);
    }

    pub(crate) proof fn lemma_after_queueing(self, envelope: EnvelopeView, to_front: bool, gone: nat)
        requires
            self.inv(),
            forall|i: int|
                0 <= i < survivors(self.parked_at(envelope.to), envelope, gone).len() ==> !(
                #[trigger] survivors(
                    self.parked_at(envelope.to),
                    envelope,
                    gone,
                )[i]).filter.passes(envelope),
        ensures
            self.with_parked(
                envelope.to,
                survivors(self.parked_at(envelope.to), envelope, gone),
            ).with_queue(envelope.to, self.enqueued(envelope, to_front)).inv(),
    {
        let name = envelope.to;
        let parked = self.parked_at(name);
        let left = survivors(parked, envelope, gone);
        let queue = self.enqueued(envelope, to_front);
        lemma_survivors(parked, envelope, gone);
        self.lemma_with(name, queue, left);
        let after = self.with_queue(name, queue).with_parked(name, left);
        assert(after =~= self.with_parked(name, left).with_queue(name, queue));
        assert forall|j: int| 0 <= j < queue.len() implies (#[trigger] queue[j]) == envelope
            || exists|k: int|
            0 <= k < self.queue_of(name).len() && queue[j] == #[trigger] self.queue_of(name)[k] by {
            let k = if to_front {
                j - 1
            } else {
                j
            };
            if 0 <= k < self.queue_of(name).len() {
                assert(queue[j] == self.queue_of(name)[k]);
            }
        }
        assert forall|i: int, j: int|
            0 <= i < after.parked_at(name).len() && 0 <= j < after.queue_of(name).len() implies !(
        #[trigger] after.parked_at(name)[i]).filter.passes(#[trigger] after.queue_of(name)[j]) by {
            assert(parked.contains(left[i]));
            let k = choose|k: int| 0 <= k < parked.len() && parked[k] == left[i];
            if queue[j] != envelope {
                let m = choose|m: int|
                    0 <= m < self.queue_of(name).len() && queue[j] == #[trigger] self.queue_of(
                        name,
                    )[m];
                assert(!self.parked_at(name)[k].filter.passes(self.queue_of(name)[m]));
            }
        }
        self.lemma_inv_step(after, name);
    }
}

impl HubState {
    /// Commits one submission, once its audit record has been appended or could not
    /// be. An envelope that is not in the audit log is not accepted: the cause comes
    /// back and nothing was routed. Otherwise the best parked consumer gets the
    /// envelope, or it joins the end of its queue.
    pub fn commit_send(&mut self, audited: Result<(), String>, submission: Submission) -> (committed:
        Result<Routed, String>)
        requires
            old(self).wf(),
        ensures
            final(self).wf(),
            match audited {
                Ok(_) => {
                    &&& committed is Ok
                    &&& old(self)@.routes_to(
                        submission@,
                        false,
                        committed->Ok_0.purged@,
                        committed->Ok_0.outcome,
                        final(self)@,
                    )
                },
                Err(cause) => {
                    &&& committed is Err
                    &&& committed->Err_0@ == cause@
                    &&& final(self)@ == old(self)@
                },
            },
    {
        match audited {
            Ok(_) => Ok(self.route(submission.envelope, false)),
            Err(cause) => Err(cause),
        }
    }

    /// Returns an envelope to routing whose write to a consumer failed before the
    /// first byte: the next matching consumer gets it, or it goes back to the front
    /// of its queue.
    pub fn return_to_routing(&mut self, envelope: Envelope) -> (routed: Routed)
        requires
            old(self).wf(),
        ensures
            final(self).wf(),
            old(self)@.routes_to(
                envelope@,
                true,
                routed.purged@,
                routed.outcome,
                final(self)@,
            ),
    {
        self.route(envelope, true)
    }

    /// Takes the first envelope queued for `name` that passes `filter`; without
    /// conditions that is the front of the queue. Filtered matches may jump the
    /// queue.
    pub fn take_queued(&mut self, name: &str, filter: &Filter) -> (taken: Option<Envelope>)
        requires
            old(self).wf(),
        ensures
            final(self).wf(),
            match first_match(old(self)@.queue_of(name@), filter@) {
                Some(i) => {
                    &&& 0 <= i < old(self)@.queue_of(name@).len()
                    &&& taken is Some
                    &&& taken->0@ == old(self)@.queue_of(name@)[i]
                    &&& final(self)@ == old(self)@.with_queue(
                        name@,
                        old(self)@.queue_of(name@).remove(i),
                    )
                },
                None => {
                    &&& taken is None
                    &&& final(self)@ == old(self)@
                    &&& forall|j: int|
                        0 <= j < old(self)@.queue_of(name@).len() ==> !filter@.passes(
                            #[trigger] old(self)@.queue_of(name@)[j],
                        )
                },
            },
            taken matches Some(envelope) ==> exists|i: int|
                {
                    &&& 0 <= i < old(self)@.queue_of(name@).len()
                    &&& envelope@ == #[trigger] old(self)@.queue_of(name@)[i]
                    &&& filter@.passes(old(self)@.queue_of(name@)[i])
                    &&& forall|j: int|
                        0 <= j < i ==> !filter@.passes(#[trigger] old(self)@.queue_of(name@)[j])
                    &&& final(self)@.queue_of(name@) == old(self)@.queue_of(name@).remove(i)
                },
            taken is None ==> forall|j: int|
                0 <= j < old(self)@.queue_of(name@).len() ==> !filter@.passes(
                    #[trigger] old(self)@.queue_of(name@)[j],
                ),
            taken is None ==> final(self)@.queue_of(name@) == old(self)@.queue_of(name@),
            final(self)@.waiters == old(self)@.waiters,
            final(self)@.next_waiter_id == old(self)@.next_waiter_id,
            forall|other: Seq<char>|
                other != name@ ==> #[trigger] final(self)@.queue_of(other) == old(self)@.queue_of(
                    other,
                ),
    {
        let ghost before = self@;
        let mut queue = self.lift_queue(name);
        let ghost contents = envelope_views(queue@);
        let found = first_passing(&queue, filter);
        let taken = match found {
            Some(i) => queue.remove(i),
            None => None,
        };
        proof {
            if found is Some {
                assert(envelope_views(queue@) =~= contents.remove(found->0 as int));
                before.lemma_after_taking(name@, found->0 as int);
            } else {
                before.lemma_unchanged(name@);
            }
        }
        self.lower_queue(name.to_string(), queue);
        assert(self@ =~= before.with_queue(name@, envelope_views(queue@)));
        proof {
            before.lemma_with(name@, envelope_views(queue@), before.parked_at(name@));
            lemma_first_match(contents, filter@);
            assert(contents == before.queue_of(name@));
            if found is Some {
                assert(before.queue_of(name@)[found->0 as int] == taken->0@);
                assert(self@.queue_of(name@) =~= contents.remove(found->0 as int));
            }
        }
        taken
    }

    /// Whether another consumer can be parked, that is, an id is left for it.
    pub fn can_park(&self) -> (can: bool)
        ensures
            can == (self@.next_waiter_id < u64::MAX),
    {
        self.next_waiter_id < u64::MAX
    }

    /// Begins an `await` from `name`: takes the first queued envelope that passes
    /// `filter`, or parks a new waiter behind all others. Both happen in this one
    /// step, so no envelope can slip past in between. The waiter listens to the
    /// channel whose receiving half is handed out.
    pub fn start_await(&mut self, name: &str, filter: Filter) -> (start: AwaitStart)
        requires
            old(self).wf(),
            first_match(old(self)@.queue_of(name@), filter@) is None
                ==> old(self)@.next_waiter_id < u64::MAX,
        ensures
            final(self).wf(),
            match first_match(old(self)@.queue_of(name@), filter@) {
                Some(i) => {
                    &&& 0 <= i < old(self)@.queue_of(name@).len()
                    &&& start is Immediate
                    &&& start->Immediate_0@ == old(self)@.queue_of(name@)[i]
                    &&& final(self)@ == old(self)@.with_queue(
                        name@,
                        old(self)@.queue_of(name@).remove(i),
                    )
                },
                None => {
                    &&& start is Parked
                    &&& start->waiter_id == old(self)@.next_waiter_id
                    &&& final(self)@ == (HubView {
                        next_waiter_id: (old(self)@.next_waiter_id + 1) as u64,
                        ..old(self)@.with_parked(
                            name@,
                            old(self)@.parked_at(name@).push(
                                WaiterView {
                                    id: old(self)@.next_waiter_id,
                                    filter: filter@,
                                    channel: receiver_channel(start->rx),
                                },
                            ),
                        )
                    })
                },
            },
            start matches AwaitStart::Immediate(envelope) ==> exists|i: int|
                {
                    &&& 0 <= i < old(self)@.queue_of(name@).len()
                    &&& envelope@ == #[trigger] old(self)@.queue_of(name@)[i]
                    &&& filter@.passes(old(self)@.queue_of(name@)[i])
                    &&& forall|j: int|
                        0 <= j < i ==> !filter@.passes(#[trigger] old(self)@.queue_of(name@)[j])
                    &&& final(self)@.queue_of(name@) == old(self)@.queue_of(name@).remove(i)
                },
            start is Immediate ==> final(self)@.waiters == old(self)@.waiters
                && final(self)@.next_waiter_id == old(self)@.next_waiter_id,
            start matches AwaitStart::Parked { waiter_id, rx } ==> {
                &&& forall|j: int|
                    0 <= j < old(self)@.queue_of(name@).len() ==> !filter@.passes(
                        #[trigger] old(self)@.queue_of(name@)[j],
                    )
                &&& waiter_id == old(self)@.next_waiter_id
                &&& final(self)@.next_waiter_id == waiter_id + 1
                &&& final(self)@.queues == old(self)@.queues
                &&& final(self)@.parked_at(name@).len() == old(self)@.parked_at(name@).len() + 1
                &&& final(self)@.parked_at(name@).drop_last() == old(self)@.parked_at(name@)
                &&& final(self)@.parked_at(name@).last().id == waiter_id
                &&& final(self)@.parked_at(name@).last().filter.reply_to == filter@.reply_to
                &&& final(self)@.parked_at(name@).last().filter.kind == filter@.kind
                &&& final(self)@.parked_at(name@).last().channel == receiver_channel(rx)
            },
            forall|other: Seq<char>|
                other != name@ ==> #[trigger] final(self)@.queue_of(other) == old(self)@.queue_of(
                    other,
                ),
            forall|other: Seq<char>|
                other != name@ ==> #[trigger] final(self)@.parked_at(other) == old(
                    self,
                )@.parked_at(other),
    {
        let ghost before = self@;
        match self.take_queued(name, &filter) {
            Some(envelope) => AwaitStart::Immediate(envelope),
            None => {
                let (tx, rx) = open_channel();
                let waiter_id = self.next_waiter_id;
                let ghost waiter = WaiterView {
                    id: waiter_id,
                    filter: filter@,
                    channel: sender_channel(tx),
                };
                self.next_waiter_id = waiter_id + 1;
                let mut waiters = self.lift_waiters(name);
                waiters.push(Waiter { id: waiter_id, filter, tx });
                assert(waiter_views(waiters@) =~= before.parked_at(name@).push(waiter));
                self.lower_waiters(name.to_string(), waiters);
                proof {
                    before.lemma_after_parking(name@, waiter);
                    assert(self@ =~= (HubView {
                        next_waiter_id: (before.next_waiter_id + 1) as u64,
                        ..before.with_parked(name@, before.parked_at(name@).push(waiter))
                    }));
                    assert(self@.parked_at(name@).drop_last() =~= before.parked_at(name@));
                }
                AwaitStart::Parked { waiter_id, rx }
            },
        }
    }

    /// Takes the waiter with id `waiter_id` off the list of `name`, and says
    /// whether it was still there. One that was there has been handed nothing and
    /// never will be.
    pub fn remove_waiter(&mut self, name: &str, waiter_id: u64) -> (removed: bool)
        requires
            old(self).wf(),
        ensures
            final(self).wf(),
            removed == old(self)@.is_parked(name@, waiter_id),
            !removed ==> final(self)@ == old(self)@,
            !removed ==> forall|i: int|
                0 <= i < old(self)@.parked_at(name@).len() ==> (#[trigger] old(self)@.parked_at(
                    name@,
                )[i]).id != waiter_id,
            removed ==> exists|i: int|
                {
                    &&& 0 <= i < old(self)@.parked_at(name@).len()
                    &&& (#[trigger] old(self)@.parked_at(name@)[i]).id == waiter_id
                    &&& final(self)@.parked_at(name@) == old(self)@.parked_at(name@).remove(i)
                },
            final(self)@.queues == old(self)@.queues,
            final(self)@.next_waiter_id == old(self)@.next_waiter_id,
            forall|other: Seq<char>|
                other != name@ ==> #[trigger] final(self)@.parked_at(other) == old(
                    self,
                )@.parked_at(other),
            removed ==> exists|i: int|
                {
                    &&& 0 <= i < old(self)@.parked_at(name@).len()
                    &&& #[trigger] old(self)@.parked_at(name@)[i].id == waiter_id
                    &&& final(self)@ == old(self)@.with_parked(
                        name@,
                        old(self)@.parked_at(name@).remove(i),
                    )
                },
    {
        let ghost before = self@;
        let mut waiters = self.lift_waiters(name);
        let ghost parked = waiter_views(waiters@);
        let mut i: usize = 0;
        while i < waiters.len()
            invariant
                i <= waiters@.len(),
                before == old(self)@,
                before.inv(),
                parked == before.parked_at(name@),
                parked == waiter_views(waiters@),
                self.tables_wf(),
                self@ == before.with_parked(name@, Seq::empty()),
                forall|j: int| 0 <= j < i ==> (#[trigger] parked[j]).id != waiter_id,
            decreases waiters@.len() - i,
        {
            assert(parked[i as int] == waiters@[i as int]@);
            if waiters[i].id == waiter_id {
                let _ = waiters.remove(i);
                assert(waiter_views(waiters@) =~= parked.remove(i as int));
                self.lower_waiters(name.to_string(), waiters);
                proof {
                    assert(before.parked_at(name@)[i as int].id == waiter_id);
                    before.lemma_after_removal(name@, i as int);
                    assert(self@ =~= before.with_parked(name@, parked.remove(i as int)));
                }
                return true;
            }
            i = i + 1;
        }
        self.lower_waiters(name.to_string(), waiters);
        proof {
            before.lemma_unchanged(name@);
            assert(self@ =~= before.with_parked(name@, parked));
        }
        false
    }
}

impl HubView {
    /// Whether a waiter with id `id` is parked for `name`.
    pub open spec fn is_parked(self, name: Seq<char>, id: u64) -> bool {
        exists|i: int|
            0 <= i < self.parked_at(name).len() && (#[trigger] self.parked_at(name)[i]).id == id
    }

    /// `after` is this state without the waiter with id `id`: the queues and every
    /// other waiter are as they were.
    pub open spec fn loses_only(self, id: u64, after: HubView) -> bool {
        &&& after.next_waiter_id == self.next_waiter_id
        &&& forall|name: Seq<char>| #[trigger] after.queue_of(name) == self.queue_of(name)
        &&& forall|name: Seq<char>| !#[trigger] after.is_parked(name, id)
        &&& forall|name: Seq<char>, i: int|
            0 <= i < self.parked_at(name).len() && (#[trigger] self.parked_at(name)[i]).id != id
                ==> after.parked_at(name).contains(self.parked_at(name)[i])
        &&& forall|name: Seq<char>, i: int|
            0 <= i < after.parked_at(name).len() ==> self.parked_at(name).contains(
                #[trigger] after.parked_at(name)[i],
            )
    }

    /// Ids are unique, so taking one waiter off its list loses that one alone.
    pub proof fn lemma_removal_is_exact(self, name: Seq<char>, at: int)
        requires
            self.inv(),
            0 <= at < self.parked_at(name).len(),
        ensures
            self.loses_only(
                self.parked_at(name)[at].id,
                self.with_parked(name, self.parked_at(name).remove(at)),
            ),
    {
        let id = self.parked_at(name)[at].id;
        let parked = self.parked_at(name);
        let left = parked.remove(at);
        let after = self.with_parked(name, left);
        self.lemma_unchanged(name);
        self.lemma_with(name, self.queue_of(name), left);
        assert forall|n: Seq<char>| #[trigger] after.queue_of(n) == self.queue_of(n) by {}
        assert forall|n: Seq<char>| !#[trigger] after.is_parked(n, id) by {
            if after.is_parked(n, id) {
                let i = choose|i: int|
                    0 <= i < after.parked_at(n).len() && (#[trigger] after.parked_at(n)[i]).id
                        == id;
                if n == name {
                    let k = if i < at {
                        i
                    } else {
                        i + 1
                    };
                    assert(left[i] == parked[k]);
                    assert(self.parked_at(name)[k].id != self.parked_at(name)[at].id);
                } else {
                    assert(self.parked_at(n)[i].id != self.parked_at(name)[at].id);
                }
            }
        }
        assert forall|n: Seq<char>, i: int|
            0 <= i < self.parked_at(n).len() && (#[trigger] self.parked_at(n)[i]).id
                != id implies after.parked_at(n).contains(self.parked_at(n)[i]) by {
            let k = if n != name || i < at {
                i
            } else {
                i - 1
            };
            assert(after.parked_at(n)[k] == self.parked_at(n)[i]);
        }
        assert forall|n: Seq<char>, i: int| 0 <= i < after.parked_at(n).len() implies self.parked_at(
            n,
        ).contains(#[trigger] after.parked_at(n)[i]) by {
            let k = if n != name || i < at {
                i
            } else {
                i + 1
            };
            assert(after.parked_at(n)[i] == self.parked_at(n)[k]);
        }
    }

    pub(crate) proof fn lemma_after_taking(self, name: Seq<char>, at: int)
        requires
            self.inv(),
            0 <= at < self.queue_of(name).len(),
        ensures
            self.with_queue(name, self.queue_of(name).remove(at)).inv(),
    {
        let queue = self.queue_of(name);
        let rest = queue.remove(at);
        self.lemma_with(name, rest, self.parked_at(name));
        let after = self.with_queue(name, rest);
        assert(after.parked_at(name) == self.parked_at(name));
        after.lemma_parked_unchanged(name);
        assert forall|j: int| 0 <= j < rest.len() implies #[trigger] rest[j] == queue[if j < at {
            j
        } else {
            j + 1
        }] by {}
        assert forall|i: int, j: int|
            0 <= i < after.parked_at(name).len() && 0 <= j < after.queue_of(name).len() implies !(
        #[trigger] after.parked_at(name)[i]).filter.passes(#[trigger] after.queue_of(name)[j]) by {
            let k = if j < at {
                j
            } else {
                j + 1
            };
            assert(!self.parked_at(name)[i].filter.passes(self.queue_of(name)[k]));
        }
        assert forall|j: int| 0 <= j < after.queue_of(name).len() implies (
        #[trigger] after.queue_of(name)[j]).to == name by {
            let k = if j < at {
                j
            } else {
                j + 1
            };
            assert(self.queue_of(name)[k].to == name);
        }
        assert forall|i: int| 0 <= i < after.parked_at(name).len() implies self.parked_at(
            name,
        ).contains(#[trigger] after.parked_at(name)[i]) by {}
        self.lemma_inv_step(after, name);
    }

    proof fn lemma_parked_unchanged(self, name: Seq<char>)
        requires
            forall|n: Seq<char>| #[trigger]
                self.waiters.contains_key(n) ==> self.waiters[n].len() > 0,
        ensures
            self.with_parked(name, self.parked_at(name)) == self,
    {
        assert(self.with_parked(name, self.parked_at(name)) =~= self);
    }

    pub(crate) proof fn lemma_after_parking(self, name: Seq<char>, waiter: WaiterView)
        requires
            self.inv(),
            self.next_waiter_id < u64::MAX,
            waiter.id == self.next_waiter_id,
            forall|j: int|
                0 <= j < self.queue_of(name).len() ==> !waiter.filter.passes(
                    #[trigger] self.queue_of(name)[j],
                ),
        ensures
            (HubView {
                next_waiter_id: (self.next_waiter_id + 1) as u64,
                ..self.with_parked(name, self.parked_at(name).push(waiter))
            }).inv(),
    {
        let parked = self.parked_at(name).push(waiter);
        let middle = self.with_parked(name, parked);
        let after = HubView { next_waiter_id: (self.next_waiter_id + 1) as u64, ..middle };
        self.lemma_unchanged(name);
        self.lemma_with(name, self.queue_of(name), parked);
        assert forall|n: Seq<char>| #[trigger] after.queue_of(n) == middle.queue_of(n) by {}
        assert forall|n: Seq<char>| #[trigger] after.parked_at(n) == middle.parked_at(n) by {}
        assert(after.queue_of(name) == self.queue_of(name));
        assert(after.parked_at(name) == parked);
        assert forall|i: int, j: int|
            0 <= i < after.parked_at(name).len() && 0 <= j < after.queue_of(name).len() implies !(
        #[trigger] after.parked_at(name)[i]).filter.passes(#[trigger] after.queue_of(name)[j]) by {
            if i < self.parked_at(name).len() {
                assert(!self.parked_at(name)[i].filter.passes(self.queue_of(name)[j]));
            }
        }
        assert forall|i: int, j: int| 0 <= i < j < parked.len() implies (#[trigger] parked[i]).id < (
        #[trigger] parked[j]).id by {
            assert(self.parked_at(name)[i].id < self.next_waiter_id);
            if j < self.parked_at(name).len() {
                assert(self.parked_at(name)[i].id < self.parked_at(name)[j].id);
            }
        }
        assert forall|i: int| 0 <= i < after.parked_at(name).len() implies {
            let w = #[trigger] after.parked_at(name)[i];
            ||| self.parked_at(name).contains(w)
            ||| self.next_waiter_id <= w.id < after.next_waiter_id
        } by {
            if i < self.parked_at(name).len() {
                assert(after.parked_at(name)[i] == self.parked_at(name)[i]);
            }
        }
        self.lemma_inv_step(after, name);
    }

    pub(crate) proof fn lemma_after_removal(self, name: Seq<char>, at: int)
        requires
            self.inv(),
            0 <= at < self.parked_at(name).len(),
        ensures
            self.with_parked(name, self.parked_at(name).remove(at)).inv(),
    {
        let parked = self.parked_at(name);
        let left = parked.remove(at);
        assert(ids_grow(parked)) by {
            assert forall|i: int, j: int| 0 <= i < j < parked.len() implies (
            #[trigger] parked[i]).id < (#[trigger] parked[j]).id by {
                assert(self.parked_at(name)[i].id < self.parked_at(name)[j].id);
            }
        }
        lemma_removal_keeps(parked, at);
        self.lemma_unchanged(name);
        self.lemma_with(name, self.queue_of(name), left);
        let after = self.with_parked(name, left);
        assert forall|i: int, j: int|
            0 <= i < after.parked_at(name).len() && 0 <= j < after.queue_of(name).len() implies !(
        #[trigger] after.parked_at(name)[i]).filter.passes(#[trigger] after.queue_of(name)[j]) by {
            let k = if i < at {
                i
            } else {
                i + 1
            };
            assert(!self.parked_at(name)[k].filter.passes(self.queue_of(name)[j]));
        }
        self.lemma_inv_step(after, name);
    }
}

/// An envelope finds a consumer exactly if a parked one may have it. Of those the
/// most specific gets it, and the oldest of equally specific ones.
pub proof fn lemma_most_specific_then_oldest(waiters: Seq<WaiterView>, envelope: EnvelopeView)
    ensures
        best(waiters, envelope) is Some <==> exists|j: int|
            0 <= j < waiters.len() && (#[trigger] waiters[j]).filter.passes(envelope),
        best(waiters, envelope) matches Some(i) ==> is_best(waiters, envelope, i),
    decreases waiters.len(),
{
    if exists|j: int| 0 <= j < waiters.len() && (#[trigger] waiters[j]).filter.passes(envelope) {
        let init = waiters.drop_last();
        let last = waiters.len() - 1;
        lemma_most_specific_then_oldest(init, envelope);
        if best(init, envelope) is Some {
            let i = best(init, envelope)->0;
            assert(init[i] == waiters[i]);
            let winner = if waiters[last].filter.passes(envelope) && waiters[i].filter.rank()
                < waiters[last].filter.rank() {
                last
            } else {
                i
            };
            assert forall|j: int|
                0 <= j < waiters.len() && (#[trigger] waiters[j]).filter.passes(envelope) implies {
                ||| waiters[j].filter.rank() < waiters[winner].filter.rank()
                ||| waiters[j].filter.rank() == waiters[winner].filter.rank() && winner <= j
            } by {
                if j < last {
                    assert(init[j] == waiters[j]);
                }
            }
            assert(is_best(waiters, envelope, winner));
        } else {
            assert forall|j: int| 0 <= j < last implies !(
            #[trigger] waiters[j]).filter.passes(envelope) by {
                assert(init[j] == waiters[j]);
            }
            assert(is_best(waiters, envelope, last));
        }
    }
}

/// With the same filter, or filters equally specific, the older waiter goes first.
pub proof fn lemma_older_waiter_first(
    waiters: Seq<WaiterView>,
    envelope: EnvelopeView,
    older: int,
    newer: int,
)
    requires
        0 <= older < newer < waiters.len(),
        waiters[older].filter.passes(envelope),
        waiters[older].filter.rank() >= waiters[newer].filter.rank(),
    ensures
        best(waiters, envelope) is Some,
        best(waiters, envelope) != Some(newer),
{
    lemma_most_specific_then_oldest(waiters, envelope);
}

/// A filter on reply-to and kind beats one on reply-to alone, that one beats a
/// filter on kind alone, and any filter beats none.
pub proof fn lemma_specificity_order(
    reply_to: Seq<char>,
    kind: Seq<char>,
    other_reply_to: Seq<char>,
    other_kind: Seq<char>,
)
    ensures
        ({
            let both = FilterView { reply_to: Some(reply_to), kind: Some(kind) };
            let reply = FilterView { reply_to: Some(other_reply_to), kind: None };
            let of_kind = FilterView { reply_to: None, kind: Some(other_kind) };
            both.rank() > reply.rank() > of_kind.rank() > FilterView::any().rank()
        }),
{
}

/// The first match is there exactly if something queued passes, and it passes while
/// nothing before it does.
pub proof fn lemma_first_match(queue: Seq<EnvelopeView>, filter: FilterView)
    ensures
        first_match(queue, filter) is Some <==> exists|j: int|
            0 <= j < queue.len() && filter.passes(#[trigger] queue[j]),
        first_match(queue, filter) matches Some(i) ==> is_first_match(queue, filter, i),
    decreases queue.len(),
{
    if exists|j: int| 0 <= j < queue.len() && filter.passes(#[trigger] queue[j]) {
        let init = queue.drop_last();
        lemma_first_match(init, filter);
        if first_match(init, filter) is Some {
            let i = first_match(init, filter)->0;
            assert forall|j: int| 0 <= j < i implies !filter.passes(#[trigger] queue[j]) by {
                assert(init[j] == queue[j]);
            }
            assert(is_first_match(queue, filter, i));
        } else {
            assert forall|j: int| 0 <= j < init.len() implies !filter.passes(
                #[trigger] queue[j],
            ) by {
                assert(init[j] == queue[j]);
            }
            assert(is_first_match(queue, filter, queue.len() - 1));
        }
    }
}

/// An await without conditions takes the oldest envelope of its queue.
pub proof fn lemma_unfiltered_takes_the_front(queue: Seq<EnvelopeView>)
    requires
        queue.len() > 0,
    ensures
        first_match(queue, FilterView::any()) == Some(0int),
{
    lemma_first_match_is(queue, FilterView::any(), 0);
}

impl HubView {
    /// No waiter has the id that the next one will get.
    pub proof fn lemma_next_id_is_fresh(self, name: Seq<char>)
        requires
            self.inv(),
        ensures
            !self.is_parked(name, self.next_waiter_id),
    {
    }

    /// Routing one envelope puts it in one place. Handed over, it is in no queue,
    /// and one waiter left for it; queued, it is in the queue of its destination
    /// once more than before. Waiters leave only by being handed it or by being
    /// gone, and nothing changes under any other name.
    pub proof fn lemma_routing_conserves(
        self,
        envelope: EnvelopeView,
        to_front: bool,
        purged: Seq<u64>,
        outcome: SendOutcome,
        after: HubView,
    )
        requires
            self.inv(),
            self.routes_to(envelope, to_front, purged, outcome, after),
        ensures
            after.next_waiter_id == self.next_waiter_id,
            forall|name: Seq<char>|
                name != envelope.to ==> #[trigger] after.queue_of(name) == self.queue_of(name),
            forall|name: Seq<char>|
                name != envelope.to ==> #[trigger] after.parked_at(name) == self.parked_at(name),
            match outcome {
                SendOutcome::HandedOff => {
                    &&& after.queue_of(envelope.to) == self.queue_of(envelope.to)
                    &&& after.parked_at(envelope.to).len() + purged.len() + 1 == self.parked_at(
                        envelope.to,
                    ).len()
                },
                SendOutcome::Queued(depth) => {
                    &&& after.queue_of(envelope.to).to_multiset() == self.queue_of(
                        envelope.to,
                    ).to_multiset().insert(envelope)
                    &&& after.queue_of(envelope.to).len() == depth
                    &&& after.parked_at(envelope.to).len() + purged.len() == self.parked_at(
                        envelope.to,
                    ).len()
                },
            },
    {
        let name = envelope.to;
        let queue = self.queue_of(name);
        let parked = self.parked_at(name);
        let left = survivors(parked, envelope, purged.len());
        self.lemma_survivor_count(envelope, purged, purged.len());
        match outcome {
            SendOutcome::HandedOff => {
                let rest = survivors(parked, envelope, purged.len() + 1);
                lemma_most_specific_then_oldest(left, envelope);
                assert(rest == left.remove(best(left, envelope)->0));
                self.lemma_unchanged(name);
                self.lemma_with(name, queue, rest);
            },
            SendOutcome::Queued(_) => {
                let longer = self.enqueued(envelope, to_front);
                self.lemma_with(name, longer, left);
                assert(after =~= self.with_queue(name, longer).with_parked(name, left));
                if to_front {
                    vstd::seq_lib::lemma_multiset_commutative(seq![envelope], queue);
                    vstd::seq_lib::lemma_multiset_commutative(queue, seq![envelope]);
                    assert(queue + seq![envelope] =~= queue.push(envelope));
                }
                broadcast use vstd::seq_lib::group_to_multiset_ensures;

                assert(queue.push(envelope).to_multiset() =~= queue.to_multiset().insert(
                    envelope,
                ));
                assert(longer.to_multiset() =~= queue.to_multiset().insert(envelope));
            },
        }
    }

    proof fn lemma_survivor_count(self, envelope: EnvelopeView, purged: Seq<u64>, k: nat)
        requires
            k <= purged.len(),
            forall|i: int|
                0 <= i < purged.len() ==> self.tried(envelope, i as nat, #[trigger] purged[i]),
        ensures
            survivors(self.parked_at(envelope.to), envelope, k).len() + k == self.parked_at(
                envelope.to,
            ).len(),
        decreases k,
    {
        if k > 0 {
            self.lemma_survivor_count(envelope, purged, (k - 1) as nat);
            assert(self.tried(envelope, (k - 1) as nat, purged[k - 1]));
            let rest = survivors(self.parked_at(envelope.to), envelope, (k - 1) as nat);
            lemma_most_specific_then_oldest(rest, envelope);
        }
    }

    /// Envelopes that find no consumer are taken in the order in which they were
    /// sent: behind what is queued already, the earlier before the later.
    pub proof fn lemma_first_in_first_out(
        self,
        first: EnvelopeView,
        second: EnvelopeView,
        first_purged: Seq<u64>,
        second_purged: Seq<u64>,
        first_depth: usize,
        second_depth: usize,
        between: HubView,
        after: HubView,
    )
        requires
            self.inv(),
            between.inv(),
            first.to == second.to,
            self.routes_to(first, false, first_purged, SendOutcome::Queued(first_depth), between),
            between.routes_to(
                second,
                false,
                second_purged,
                SendOutcome::Queued(second_depth),
                after,
            ),
        ensures
            after.queue_of(first.to) == self.queue_of(first.to).push(first).push(second),
            second_depth == first_depth + 1,
    {
        let name = first.to;
        let left = survivors(self.parked_at(name), first, first_purged.len());
        self.lemma_with(name, self.enqueued(first, false), left);
        assert(between =~= self.with_queue(name, self.enqueued(first, false)).with_parked(
            name,
            left,
        ));
        let last = survivors(between.parked_at(name), second, second_purged.len());
        between.lemma_with(name, between.enqueued(second, false), last);
        assert(after =~= between.with_queue(name, between.enqueued(second, false)).with_parked(
            name,
            last,
        ));
    }

    /// Returning an envelope undoes the step that took it: nobody parked may have
    /// it, so it stands at the front of its queue again, ahead of everything that
    /// was queued beside it. If it came from the front, all is as it was.
    pub proof fn lemma_return_undoes_taking(
        self,
        name: Seq<char>,
        at: int,
        purged: Seq<u64>,
        outcome: SendOutcome,
        after: HubView,
    )
        requires
            self.inv(),
            0 <= at < self.queue_of(name).len(),
            self.with_queue(name, self.queue_of(name).remove(at)).routes_to(
                self.queue_of(name)[at],
                true,
                purged,
                outcome,
                after,
            ),
        ensures
            purged.len() == 0,
            outcome is Queued,
            after == self.with_queue(
                name,
                seq![self.queue_of(name)[at]] + self.queue_of(name).remove(at),
            ),
            at == 0 ==> after == self,
    {
        let queue = self.queue_of(name);
        let envelope = queue[at];
        let rest = queue.remove(at);
        let taken = self.with_queue(name, rest);
        assert(self.queue_of(name)[at].to == name);
        self.lemma_with(name, rest, self.parked_at(name));
        self.lemma_unchanged(name);
        assert(taken.parked_at(name) == self.parked_at(name));
        assert(taken.queue_of(name) =~= rest);
        assert forall|i: int| 0 <= i < self.parked_at(name).len() implies !(
        #[trigger] self.parked_at(name)[i]).filter.passes(envelope) by {
            assert(!self.parked_at(name)[i].filter.passes(self.queue_of(name)[at]));
        }
        lemma_best_none(self.parked_at(name), envelope);
        assert(survivors(self.parked_at(name), envelope, 0) == self.parked_at(name));
        if purged.len() > 0 {
            assert(taken.tried(envelope, 0, purged[0]));
        }
        let restored = seq![envelope] + rest;
        taken.lemma_parked_unchanged(name);
        assert(taken.with_queue(name, restored) =~= self.with_queue(name, restored));
        assert(after == taken.with_queue(name, restored));
        if at == 0 {
            assert(restored =~= queue);
        }
    }
}

/// What a filter asks for: a filter without conditions takes every envelope, one on
/// reply-to the envelopes with that correlation id and no others, one on kind the
/// envelopes of that kind and no others, and one on both what each of the two takes.
pub proof fn lemma_filters_ask_for_equality(
    envelope: EnvelopeView,
    id: Seq<char>,
    kind: Seq<char>,
    filter: FilterView,
)
    ensures
        (FilterView { reply_to: None, kind: None }).passes(envelope),
        (FilterView { reply_to: Some(id), kind: None }).passes(envelope)
            <==> envelope.correlation_id == Some(id),
        (FilterView { reply_to: None, kind: Some(kind) }).passes(envelope) <==> envelope.kind
            == kind,
        filter.passes(envelope) <==> (FilterView { kind: None, ..filter }).passes(envelope) && (
        FilterView { reply_to: None, ..filter }).passes(envelope),
{
}

/// Nothing of a filter counts for its rank but which conditions it has: a condition
/// on reply-to weighs more than any on kind, and what they ask for weighs nothing.
pub proof fn lemma_rank_goes_by_conditions(one: FilterView, other: FilterView)
    ensures
        one.rank() < other.rank() <==> {
            ||| one.reply_to is None && other.reply_to is Some
            ||| (one.reply_to is Some <==> other.reply_to is Some) && one.kind is None
                && other.kind is Some
        },
{
}

/// Whatever the envelope and whoever is parked: the chosen waiter may have the
/// envelope, no waiter that may have it is more specific, and none that is as
/// specific stands before it. If none is chosen, none may have it.
pub proof fn lemma_no_better_waiter(
    waiters: Seq<WaiterView>,
    envelope: EnvelopeView,
    chosen: int,
    other: int,
)
    requires
        0 <= other < waiters.len(),
        waiters[other].filter.passes(envelope),
    ensures
        best(waiters, envelope) is Some,
        best(waiters, envelope) == Some(chosen) ==> {
            &&& 0 <= chosen < waiters.len()
            &&& waiters[chosen].filter.passes(envelope)
            &&& waiters[other].filter.rank() <= waiters[chosen].filter.rank()
            &&& waiters[other].filter.rank() == waiters[chosen].filter.rank() ==> chosen <= other
        },
{
    lemma_most_specific_then_oldest(waiters, envelope);
}

/// Whatever the filter: the envelope that an await takes passes it, and nothing that
/// is queued before it does. If it takes none, nothing queued passes.
pub proof fn lemma_no_earlier_match(
    queue: Seq<EnvelopeView>,
    filter: FilterView,
    taken: int,
    other: int,
)
    requires
        0 <= other < queue.len(),
        filter.passes(queue[other]),
    ensures
        first_match(queue, filter) is Some,
        first_match(queue, filter) == Some(taken) ==> {
            &&& 0 <= taken <= other
            &&& filter.passes(queue[taken])
        },
{
    lemma_first_match(queue, filter);
}

proof fn lemma_removal_delisted(left: Seq<WaiterView>, at: int)
    requires
        ids_grow(left),
        0 <= at < left.len(),
    ensures
        forall|w: WaiterView| #[trigger] left.remove(at).contains(w) <==> left.contains(w) && w
            != left[at],
{
    let rest = left.remove(at);
    assert forall|w: WaiterView| #[trigger] rest.contains(w) <==> left.contains(w) && w
        != left[at] by {
        if rest.contains(w) {
            let i = choose|i: int| 0 <= i < rest.len() && rest[i] == w;
            let m = if i < at {
                i
            } else {
                i + 1
            };
            assert(left[m] == w);
            if m < at {
                assert(left[m].id < left[at].id);
            } else {
                assert(left[at].id < left[m].id);
            }
        }
        if left.contains(w) && w != left[at] {
            let m = choose|m: int| 0 <= m < left.len() && left[m] == w;
            let i = if m < at {
                m
            } else {
                m - 1
            };
            assert(rest[i] == w);
        }
    }
}

impl HubView {
    /// What the hub holds for a name is what stands under that name in its maps, and
    /// replacing it replaces that and nothing else.
    pub proof fn lemma_names_are_apart(
        self,
        name: Seq<char>,
        other: Seq<char>,
        queue: Seq<EnvelopeView>,
        waiters: Seq<WaiterView>,
    )
        ensures
            self.queues.contains_key(name) ==> self.queue_of(name) == self.queues[name],
            !self.queues.contains_key(name) ==> self.queue_of(name).len() == 0,
            self.waiters.contains_key(name) ==> self.parked_at(name) == self.waiters[name],
            !self.waiters.contains_key(name) ==> self.parked_at(name).len() == 0,
            self.with_queue(name, queue).queue_of(name) == queue,
            self.with_queue(name, queue).waiters == self.waiters,
            self.with_queue(name, queue).next_waiter_id == self.next_waiter_id,
            self.with_parked(name, waiters).parked_at(name) == waiters,
            self.with_parked(name, waiters).queues == self.queues,
            self.with_parked(name, waiters).next_waiter_id == self.next_waiter_id,
            other != name ==> {
                &&& self.with_queue(name, queue).queue_of(other) == self.queue_of(other)
                &&& self.with_parked(name, waiters).parked_at(other) == self.parked_at(other)
            },
    {
    }

    proof fn lemma_left_over(self, envelope: EnvelopeView, purged: Seq<u64>, k: nat)
        requires
            self.inv(),
            k <= purged.len(),
            forall|i: int|
                0 <= i < purged.len() ==> self.tried(envelope, i as nat, #[trigger] purged[i]),
        ensures
            ids_grow(survivors(self.parked_at(envelope.to), envelope, k)),
            forall|i: int|
                0 <= i < survivors(self.parked_at(envelope.to), envelope, k).len() ==> {
                    &&& self.parked_at(envelope.to).contains(
                        #[trigger] survivors(self.parked_at(envelope.to), envelope, k)[i],
                    )
                    &&& !purged.take(k as int).contains(
                        survivors(self.parked_at(envelope.to), envelope, k)[i].id,
                    )
                },
            forall|j: int|
                0 <= j < self.parked_at(envelope.to).len() && !purged.take(k as int).contains(
                    (#[trigger] self.parked_at(envelope.to)[j]).id,
                ) ==> survivors(self.parked_at(envelope.to), envelope, k).contains(
                    self.parked_at(envelope.to)[j],
                ),
        decreases k,
    {
        let parked = self.parked_at(envelope.to);
        assert(ids_grow(parked)) by {
            assert forall|i: int, j: int| 0 <= i < j < parked.len() implies (
            #[trigger] parked[i]).id < (#[trigger] parked[j]).id by {
                assert(self.parked_at(envelope.to)[i].id < self.parked_at(envelope.to)[j].id);
            }
        }
        lemma_survivors(parked, envelope, k);
        let left = survivors(parked, envelope, k);
        if k > 0 {
            let fewer = (k - 1) as nat;
            let rest = survivors(parked, envelope, fewer);
            self.lemma_left_over(envelope, purged, fewer);
            assert(self.tried(envelope, fewer, purged[k - 1]));
            lemma_most_specific_then_oldest(rest, envelope);
            let at = best(rest, envelope)->0;
            let taken = purged.take(k as int);
            assert(taken =~= purged.take(fewer as int).push(purged[k - 1]));
            assert(taken[fewer as int] == purged[k - 1]);
            assert forall|i: int| 0 <= i < left.len() implies !taken.contains(
                (#[trigger] left[i]).id,
            ) by {
                let m = if i < at {
                    i
                } else {
                    i + 1
                };
                assert(left[i] == rest[m]);
                if taken.contains(left[i].id) {
                    let p = choose|p: int| 0 <= p < taken.len() && taken[p] == left[i].id;
                    if p < fewer {
                        assert(purged.take(fewer as int)[p] == rest[m].id);
                    } else if m < at {
                        assert(rest[m].id < rest[at].id);
                    } else {
                        assert(rest[at].id < rest[m].id);
                    }
                }
            }
            assert forall|j: int|
                0 <= j < parked.len() && !taken.contains((#[trigger] parked[j]).id) implies left.contains(
                parked[j],
            ) by {
                if purged.take(fewer as int).contains(parked[j].id) {
                    let p = choose|p: int|
                        0 <= p < fewer && purged.take(fewer as int)[p] == parked[j].id;
                    assert(taken[p] == parked[j].id);
                }
                assert(self.parked_at(envelope.to)[j] == parked[j]);
                assert(rest.contains(parked[j]));
                let m = choose|m: int| 0 <= m < rest.len() && rest[m] == parked[j];
                assert(m != at);
                let i = if m < at {
                    m
                } else {
                    m - 1
                };
                assert(left[i] == rest[m]);
            }
        } else {
            assert(purged.take(0) =~= Seq::<u64>::empty());
            assert(left == parked);
        }
    }

    proof fn lemma_next_in_line(self, envelope: EnvelopeView, purged: Seq<u64>, k: nat) -> (i: int)
        requires
            self.inv(),
            k <= purged.len(),
            forall|m: int|
                0 <= m < purged.len() ==> self.tried(envelope, m as nat, #[trigger] purged[m]),
            best(survivors(self.parked_at(envelope.to), envelope, k), envelope) is Some,
        ensures
            0 <= i < self.parked_at(envelope.to).len(),
            ({
                let left = survivors(self.parked_at(envelope.to), envelope, k);
                self.parked_at(envelope.to)[i] == left[best(left, envelope)->0]
            }),
            self.parked_at(envelope.to)[i].filter.passes(envelope),
            !purged.take(k as int).contains(self.parked_at(envelope.to)[i].id),
            forall|j: int|
                0 <= j < self.parked_at(envelope.to).len() && (#[trigger] self.parked_at(
                    envelope.to,
                )[j]).filter.passes(envelope) && !purged.take(k as int).contains(
                    self.parked_at(envelope.to)[j].id,
                ) ==> {
                    ||| self.parked_at(envelope.to)[j].filter.rank() < self.parked_at(
                        envelope.to,
                    )[i].filter.rank()
                    ||| self.parked_at(envelope.to)[j].filter.rank() == self.parked_at(
                        envelope.to,
                    )[i].filter.rank() && i <= j
                },
    {
        let parked = self.parked_at(envelope.to);
        let left = survivors(parked, envelope, k);
        self.lemma_left_over(envelope, purged, k);
        lemma_most_specific_then_oldest(left, envelope);
        let at = best(left, envelope)->0;
        assert(parked.contains(left[at]));
        let i = choose|i: int| 0 <= i < parked.len() && parked[i] == left[at];
        assert forall|j: int|
            0 <= j < self.parked_at(envelope.to).len() && (#[trigger] self.parked_at(
                envelope.to,
            )[j]).filter.passes(envelope) && !purged.take(k as int).contains(
                self.parked_at(envelope.to)[j].id,
            ) implies {
            ||| parked[j].filter.rank() < parked[i].filter.rank()
            ||| parked[j].filter.rank() == parked[i].filter.rank() && i <= j
        } by {
            assert(left.contains(parked[j]));
            let m = choose|m: int| 0 <= m < left.len() && left[m] == parked[j];
            assert(left[m].filter.passes(envelope));
            if j < i {
                assert(self.parked_at(envelope.to)[j].id < self.parked_at(envelope.to)[i].id);
                if at < m {
                    assert(left[at].id < left[m].id);
                }
            }
        }
        i
    }

    /// Consumers are tried one by one, each time the most specific of those not tried
    /// yet that may have the envelope, and of equally specific ones the oldest.
    /// Whoever was tried in vain got nothing through its channel.
    pub proof fn lemma_consumers_are_tried_in_turn(
        self,
        envelope: EnvelopeView,
        to_front: bool,
        purged: Seq<u64>,
        outcome: SendOutcome,
        after: HubView,
        k: int,
    )
        requires
            self.inv(),
            self.routes_to(envelope, to_front, purged, outcome, after),
            0 <= k < purged.len(),
        ensures
            exists|i: int|
                {
                    &&& 0 <= i < self.parked_at(envelope.to).len()
                    &&& (#[trigger] self.parked_at(envelope.to)[i]).id == purged[k]
                    &&& !purged.take(k).contains(purged[k])
                    &&& self.parked_at(envelope.to)[i].filter.passes(envelope)
                    &&& carried(self.parked_at(envelope.to)[i].channel) is None
                    &&& forall|j: int|
                        0 <= j < self.parked_at(envelope.to).len() && (#[trigger] self.parked_at(
                            envelope.to,
                        )[j]).filter.passes(envelope) && !purged.take(k).contains(
                            self.parked_at(envelope.to)[j].id,
                        ) ==> {
                            ||| self.parked_at(envelope.to)[j].filter.rank() < self.parked_at(
                                envelope.to,
                            )[i].filter.rank()
                            ||| self.parked_at(envelope.to)[j].filter.rank() == self.parked_at(
                                envelope.to,
                            )[i].filter.rank() && i <= j
                        }
                },
    {
        assert(self.tried(envelope, k as nat, purged[k]));
        let i = self.lemma_next_in_line(envelope, purged, k as nat);
        assert(self.parked_at(envelope.to)[i].id == purged[k]);
    }

    /// An envelope that was handed over went, through its channel, to a consumer that
    /// may have it. Of all others that may have it and were not found gone none is
    /// more specific, and none is as specific and older. That consumer and those found
    /// gone have left; everyone else is parked still.
    pub proof fn lemma_best_consumer_gets_it(
        self,
        envelope: EnvelopeView,
        to_front: bool,
        purged: Seq<u64>,
        after: HubView,
    )
        requires
            self.inv(),
            self.routes_to(envelope, to_front, purged, SendOutcome::HandedOff, after),
        ensures
            exists|i: int|
                {
                    &&& 0 <= i < self.parked_at(envelope.to).len()
                    &&& (#[trigger] self.parked_at(envelope.to)[i]).filter.passes(envelope)
                    &&& !purged.contains(self.parked_at(envelope.to)[i].id)
                    &&& carried(self.parked_at(envelope.to)[i].channel) == Some(envelope)
                    &&& forall|j: int|
                        0 <= j < self.parked_at(envelope.to).len() && (#[trigger] self.parked_at(
                            envelope.to,
                        )[j]).filter.passes(envelope) && !purged.contains(
                            self.parked_at(envelope.to)[j].id,
                        ) ==> {
                            ||| self.parked_at(envelope.to)[j].filter.rank() < self.parked_at(
                                envelope.to,
                            )[i].filter.rank()
                            ||| self.parked_at(envelope.to)[j].filter.rank() == self.parked_at(
                                envelope.to,
                            )[i].filter.rank() && i <= j
                        }
                    &&& forall|w: WaiterView| #[trigger]
                        after.parked_at(envelope.to).contains(w) <==> {
                            &&& self.parked_at(envelope.to).contains(w)
                            &&& !purged.contains(w.id)
                            &&& w != self.parked_at(envelope.to)[i]
                        }
                },
    {
        let name = envelope.to;
        let parked = self.parked_at(name);
        let left = survivors(parked, envelope, purged.len());
        let rest = survivors(parked, envelope, purged.len() + 1);
        assert(purged.take(purged.len() as int) =~= purged);
        lemma_most_specific_then_oldest(left, envelope);
        let at = best(left, envelope)->0;
        assert(rest == left.remove(at));
        self.lemma_unchanged(name);
        self.lemma_with(name, self.queue_of(name), rest);
        assert(after.parked_at(name) == rest);
        let i = self.lemma_next_in_line(envelope, purged, purged.len());
        self.lemma_still_parked(envelope, purged);
        assert(ids_grow(left)) by {
            self.lemma_left_over(envelope, purged, purged.len());
        }
        lemma_removal_delisted(left, at);
        assert forall|w: WaiterView| #[trigger] after.parked_at(envelope.to).contains(w) <==> {
            &&& self.parked_at(envelope.to).contains(w)
            &&& !purged.contains(w.id)
            &&& w != self.parked_at(envelope.to)[i]
        } by {
            assert(rest.contains(w) <==> left.contains(w) && w != left[at]);
        }
    }

    /// An envelope is queued only once every consumer that may have it was found
    /// gone; those have left, and everyone else is parked still.
    pub proof fn lemma_queued_for_want_of_consumers(
        self,
        envelope: EnvelopeView,
        to_front: bool,
        purged: Seq<u64>,
        depth: usize,
        after: HubView,
    )
        requires
            self.inv(),
            self.routes_to(envelope, to_front, purged, SendOutcome::Queued(depth), after),
        ensures
            forall|j: int|
                0 <= j < self.parked_at(envelope.to).len() && (#[trigger] self.parked_at(
                    envelope.to,
                )[j]).filter.passes(envelope) ==> purged.contains(
                    self.parked_at(envelope.to)[j].id,
                ),
            forall|w: WaiterView| #[trigger]
                after.parked_at(envelope.to).contains(w) <==> {
                    &&& self.parked_at(envelope.to).contains(w)
                    &&& !purged.contains(w.id)
                },
    {
        let name = envelope.to;
        let parked = self.parked_at(name);
        let left = survivors(parked, envelope, purged.len());
        let longer = self.enqueued(envelope, to_front);
        self.lemma_with(name, longer, left);
        assert(after =~= self.with_queue(name, longer).with_parked(name, left));
        assert(after.parked_at(name) == left);
        self.lemma_still_parked(envelope, purged);
        lemma_most_specific_then_oldest(left, envelope);
        assert forall|j: int|
            0 <= j < self.parked_at(name).len() && (#[trigger] self.parked_at(
                name,
            )[j]).filter.passes(envelope) implies purged.contains(self.parked_at(name)[j].id) by {
            if !purged.contains(self.parked_at(name)[j].id) {
                assert(self.parked_at(name).contains(parked[j]));
                assert(left.contains(parked[j]));
                let m = choose|m: int| 0 <= m < left.len() && left[m] == parked[j];
                assert(left[m].filter.passes(envelope));
            }
        }
    }

    proof fn lemma_still_parked(self, envelope: EnvelopeView, purged: Seq<u64>)
        requires
            self.inv(),
            forall|m: int|
                0 <= m < purged.len() ==> self.tried(envelope, m as nat, #[trigger] purged[m]),
        ensures
            forall|w: WaiterView| #[trigger]
                survivors(self.parked_at(envelope.to), envelope, purged.len()).contains(w) <==> {
                    &&& self.parked_at(envelope.to).contains(w)
                    &&& !purged.contains(w.id)
                },
    {
        let parked = self.parked_at(envelope.to);
        let left = survivors(parked, envelope, purged.len());
        assert(purged.take(purged.len() as int) =~= purged);
        self.lemma_left_over(envelope, purged, purged.len());
        assert forall|w: WaiterView| #[trigger] left.contains(w) <==> parked.contains(w)
            && !purged.contains(w.id) by {
            if left.contains(w) {
                let i = choose|i: int| 0 <= i < left.len() && left[i] == w;
                assert(parked.contains(left[i]));
            }
            if parked.contains(w) && !purged.contains(w.id) {
                let j = choose|j: int| 0 <= j < parked.len() && parked[j] == w;
                assert(left.contains(self.parked_at(envelope.to)[j]));
            }
        }
    }

    /// Where an envelope goes. Handed over, it is in no queue; otherwise it stands
    /// behind everything queued for its destination if it was committed, and before
    /// everything if it was returned. The depth that is told is that of the queue.
    pub proof fn lemma_routing_order(
        self,
        envelope: EnvelopeView,
        to_front: bool,
        purged: Seq<u64>,
        outcome: SendOutcome,
        after: HubView,
    )
        requires
            self.inv(),
            self.routes_to(envelope, to_front, purged, outcome, after),
        ensures
            match outcome {
                SendOutcome::HandedOff => after.queues == self.queues,
                SendOutcome::Queued(depth) => {
                    &&& depth == after.queue_of(envelope.to).len()
                    &&& after.queue_of(envelope.to) == if to_front {
                        seq![envelope] + self.queue_of(envelope.to)
                    } else {
                        self.queue_of(envelope.to) + seq![envelope]
                    }
                },
            },
            forall|name: Seq<char>|
                name != envelope.to ==> #[trigger] after.queue_of(name) == self.queue_of(name),
            forall|name: Seq<char>|
                name != envelope.to ==> #[trigger] after.parked_at(name) == self.parked_at(name),
            after.next_waiter_id == self.next_waiter_id,
    {
        self.lemma_routing_conserves(envelope, to_front, purged, outcome, after);
        if outcome is Queued {
            let left = survivors(self.parked_at(envelope.to), envelope, purged.len());
            let longer = self.enqueued(envelope, to_front);
            self.lemma_with(envelope.to, longer, left);
            assert(after =~= self.with_queue(envelope.to, longer).with_parked(envelope.to, left));
            assert(self.queue_of(envelope.to).push(envelope) =~= self.queue_of(envelope.to)
                + seq![envelope]);
        }
    }
}

/// The contents of a filter leave nothing out.
pub proof fn lemma_contents_of_a_filter(filter: Filter)
    ensures
        filter.reply_to matches Some(id) ==> filter@.reply_to == Some(id@),
        filter.reply_to is None ==> filter@.reply_to is None,
        filter.kind matches Some(kind) ==> filter@.kind == Some(kind@),
        filter.kind is None ==> filter@.kind is None,
{
}

} // verus!
