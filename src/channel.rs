use std::collections::HashMap;
use std::sync::Arc;
use tokio::sync::mpsc::{Receiver, Sender};
use vstd::prelude::*;
use vstd::std_specs::iter::IteratorSpec;

pub use crate::message::Message;

verus! {

broadcast use vstd::std_specs::hash::group_hash_axioms;

#[verifier::external_type_specification]
#[verifier::external_body]
#[verifier::reject_recursive_types(T)]
pub struct ExSender<T>(Sender<T>);

#[verifier::external_type_specification]
#[verifier::external_body]
#[verifier::reject_recursive_types(T)]
pub struct ExReceiver<T>(Receiver<T>);

/// How many messages a subscriber's queue holds before a broadcast waits for it.
pub const QUEUE_CAPACITY: usize = 1000;

/// A sending and a receiving half of one and the same queue: what is sent
/// through the first is received through the second.
pub uninterp spec fn same_queue(s: Sender<Arc<Message>>, r: Receiver<Arc<Message>>) -> bool;

/// The number of messages a queue holds before a send waits.
pub uninterp spec fn queue_bound(s: Sender<Arc<Message>>) -> nat;

/// Relies on tokio::sync::mpsc::channel: a new bounded queue of `capacity`
/// slots, as its sending and its receiving half, both made from one inner
/// channel. It panics on a capacity of zero.
#[verifier::external_body]
fn bounded_queue(capacity: usize) -> (r: (Sender<Arc<Message>>, Receiver<Arc<Message>>))
    requires
        0 < capacity <= QUEUE_CAPACITY,
    ensures
        same_queue(r.0, r.1),
        queue_bound(r.0) == capacity,
{
    tokio::sync::mpsc::channel(capacity)
}

/// The sending half of one subscriber's queue.
struct Launcher {
    sender: Sender<Arc<Message>>,
}

/// One topic's subscribers, each with the sending half of its queue.
pub struct Channel {
    senders: HashMap<u64, Launcher>,
    msg_id: u64,
    cli_id: u64,
}

/// A topic's registry: the ids of its subscribers, the id the next
/// subscriber gets, and the id the next message gets.
pub struct ChannelView {
    pub subscribers: Set<u64>,
    pub next_subscriber: nat,
    pub next_message: nat,
}

impl ChannelView {
    /// Every subscriber id was handed out before the next one.
    pub open spec fn valid(&self) -> bool {
        &&& forall|id: u64| #[trigger] self.subscribers.contains(id) ==> id < self.next_subscriber
        &&& self.next_subscriber <= u64::MAX
        &&& self.next_message <= u64::MAX
    }
}

/// `post` is `pre` with one more subscriber, under the next id.
pub open spec fn registered(pre: ChannelView, post: ChannelView) -> bool {
    &&& post.subscribers == pre.subscribers.insert(pre.next_subscriber as u64)
    &&& post.next_subscriber == pre.next_subscriber + 1
    &&& post.next_message == pre.next_message
}

/// A broadcast from `pre` took message id `id` and is owed to `targets`:
/// each subscriber of `pre`, once.
pub open spec fn broadcast_begun(
    pre: ChannelView,
    post: ChannelView,
    id: u64,
    targets: Seq<u64>,
) -> bool {
    &&& id == pre.next_message
    &&& post.next_message == pre.next_message + 1
    &&& post.subscribers == pre.subscribers
    &&& post.next_subscriber == pre.next_subscriber
    &&& targets.to_set() == pre.subscribers
    &&& targets.no_duplicates()
}

/// `post` is `pre` without the subscribers in `closed`.
pub open spec fn reclaimed(pre: ChannelView, post: ChannelView, closed: Seq<u64>) -> bool {
    &&& post.subscribers == pre.subscribers.difference(closed.to_set())
    &&& post.next_subscriber == pre.next_subscriber
    &&& post.next_message == pre.next_message
}

/// What any sequence of registrations, broadcasts and reclamations can do
/// between `pre` and `post`: counters only grow, and a subscriber of `post`
/// was a subscriber of `pre` or got an id that `pre` had not handed out.
pub open spec fn evolves(pre: ChannelView, post: ChannelView) -> bool {
    &&& pre.next_subscriber <= post.next_subscriber
    &&& pre.next_message <= post.next_message
    &&& forall|id: u64| #[trigger]
        post.subscribers.contains(id) ==> pre.subscribers.contains(id) || id
            >= pre.next_subscriber
}

/// Each operation on a registry is a step of `evolves`.
pub proof fn lemma_steps_evolve(pre: ChannelView, post: ChannelView, id: u64, seq: Seq<u64>)
    requires
        pre.valid(),
    ensures
        registered(pre, post) ==> evolves(pre, post),
        broadcast_begun(pre, post, id, seq) ==> evolves(pre, post),
        reclaimed(pre, post, seq) ==> evolves(pre, post),
        evolves(pre, pre),
{
}

/// Steps of `evolves` compose.
pub proof fn lemma_evolves_trans(a: ChannelView, b: ChannelView, c: ChannelView)
    requires
        evolves(a, b),
        evolves(b, c),
    ensures
        evolves(a, c),
{
    assert forall|id: u64| #[trigger] c.subscribers.contains(id) implies a.subscribers.contains(
        id,
    ) || id >= a.next_subscriber by {
        if !b.subscribers.contains(id) {
            assert(id >= b.next_subscriber);
        }
    }
}

/// No replay: a subscriber that registers after a broadcast began is not
/// among the subscribers that broadcast is owed to.
pub proof fn lemma_no_replay(
    b0: ChannelView,
    b1: ChannelView,
    k: u64,
    targets: Seq<u64>,
    r0: ChannelView,
    r1: ChannelView,
)
    requires
        b0.valid(),
        r0.valid(),
        broadcast_begun(b0, b1, k, targets),
        evolves(b1, r0),
        registered(r0, r1),
    ensures
        !targets.contains(r0.next_subscriber as u64),
        r1.subscribers.contains(r0.next_subscriber as u64),
{
    if targets.contains(r0.next_subscriber as u64) {
        assert(targets.to_set().contains(r0.next_subscriber as u64));
        assert(b0.subscribers.contains(r0.next_subscriber as u64));
    }
}

/// Dead-subscriber reclamation: once a subscriber is dropped for a closed
/// queue, no later broadcast is owed to it, whatever happens in between.
pub proof fn lemma_reclaimed_not_targeted(
    d0: ChannelView,
    d1: ChannelView,
    closed: Seq<u64>,
    dead: u64,
    e0: ChannelView,
    e1: ChannelView,
    k: u64,
    targets: Seq<u64>,
)
    requires
        d0.valid(),
        d0.subscribers.contains(dead),
        closed.contains(dead),
        reclaimed(d0, d1, closed),
        evolves(d1, e0),
        broadcast_begun(e0, e1, k, targets),
    ensures
        !targets.contains(dead),
        !e0.subscribers.contains(dead),
{
    assert(closed.to_set().contains(dead));
    assert(!d1.subscribers.contains(dead));
    if targets.contains(dead) {
        assert(targets.to_set().contains(dead));
    }
}

/// Fan-out: a subscriber that stays registered through a run of broadcasts
/// is owed every one of them, and their message ids rise in the order the
/// broadcasts were made.
pub proof fn lemma_fan_out(
    pre: Seq<ChannelView>,
    post: Seq<ChannelView>,
    ids: Seq<u64>,
    targets: Seq<Seq<u64>>,
    sub: u64,
)
    requires
        pre.len() == post.len() && post.len() == ids.len() && ids.len() == targets.len(),
        forall|i: int|
            0 <= i < pre.len() ==> broadcast_begun(
                #[trigger] pre[i],
                post[i],
                ids[i],
                targets[i],
            ),
        forall|i: int| 0 <= i < pre.len() - 1 ==> evolves(#[trigger] post[i], pre[i + 1]),
        forall|i: int| 0 <= i < pre.len() ==> (#[trigger] pre[i]).subscribers.contains(sub),
    ensures
        forall|i: int| 0 <= i < targets.len() ==> (#[trigger] targets[i]).contains(sub),
        forall|i: int, j: int| 0 <= i < j < ids.len() ==> ids[i] < ids[j],
{
    assert forall|i: int| 0 <= i < targets.len() implies (#[trigger] targets[i]).contains(sub) by {
        assert(broadcast_begun(pre[i], post[i], ids[i], targets[i]));
        assert(targets[i].to_set().contains(sub));
    }
    assert forall|i: int, j: int| 0 <= i < j < ids.len() implies ids[i] < ids[j] by {
        lemma_ids_rise(pre, post, ids, targets, i, j);
    }
}

proof fn lemma_ids_rise(
    pre: Seq<ChannelView>,
    post: Seq<ChannelView>,
    ids: Seq<u64>,
    targets: Seq<Seq<u64>>,
    i: int,
    j: int,
)
    requires
        pre.len() == post.len() && post.len() == ids.len() && ids.len() == targets.len(),
        forall|i: int|
            0 <= i < pre.len() ==> broadcast_begun(
                #[trigger] pre[i],
                post[i],
                ids[i],
                targets[i],
            ),
        forall|i: int| 0 <= i < pre.len() - 1 ==> evolves(#[trigger] post[i], pre[i + 1]),
        0 <= i < j < ids.len(),
    ensures
        ids[i] < ids[j],
    decreases j - i,
{
    assert(broadcast_begun(pre[j - 1], post[j - 1], ids[j - 1], targets[j - 1]));
    assert(broadcast_begun(pre[j], post[j], ids[j], targets[j]));
    assert(evolves(post[j - 1], pre[j]));
    if i < j - 1 {
        lemma_ids_rise(pre, post, ids, targets, i, j - 1);
    }
}

/// Isolation: a broadcast on one topic of a table is owed only to that
/// topic's subscribers and leaves every other topic's registry as it was.
pub proof fn lemma_isolation(
    table: Seq<ChannelView>,
    a: int,
    b: int,
    post: ChannelView,
    k: u64,
    targets: Seq<u64>,
)
    requires
        0 <= a < table.len(),
        0 <= b < table.len(),
        a != b,
        broadcast_begun(table[a], post, k, targets),
    ensures
        table.update(a, post)[b] == table[b],
        forall|id: u64| #[trigger] targets.contains(id) ==> table[a].subscribers.contains(id),
{
    assert forall|id: u64| #[trigger] targets.contains(id) implies table[a].subscribers.contains(
        id,
    ) by {
        assert(targets.to_set().contains(id));
    }
}

impl View for Channel {
    type V = ChannelView;

    closed spec fn view(&self) -> ChannelView {
        ChannelView {
            subscribers: self.senders@.dom(),
            next_subscriber: self.cli_id as nat,
            next_message: self.msg_id as nat,
        }
    }
}

impl Channel {
    /// The sending half of the queue stored under a subscriber id.
    pub closed spec fn sender_of(&self, id: u64) -> Sender<Arc<Message>> {
        self.senders@[id].sender
    }

    /// Every subscriber of `post` that was one of `pre` keeps its queue.
    pub open spec fn keeps_queues(pre: &Channel, post: &Channel) -> bool {
        forall|id: u64| #[trigger]
            post@.subscribers.contains(id) && pre@.subscribers.contains(id) ==> post.sender_of(id)
                == pre.sender_of(id)
    }

    pub fn new() -> (r: Channel)
        ensures
            r@.subscribers == Set::<u64>::empty(),
            r@.next_subscriber == 0,
            r@.next_message == 0,
            r@.valid(),
    {
        Channel { senders: HashMap::new(), msg_id: 0, cli_id: 0 }
    }

    /// Adds a subscriber under the next id, with a new bounded queue, and
    /// hands back the receiving half of that queue.
    pub fn register(&mut self) -> (r: Receiver<Arc<Message>>)
        requires
            old(self)@.valid(),
            old(self)@.next_subscriber < u64::MAX,
        ensures
            final(self)@.valid(),
            registered(old(self)@, final(self)@),
            same_queue(final(self).sender_of(old(self)@.next_subscriber as u64), r),
            queue_bound(final(self).sender_of(old(self)@.next_subscriber as u64))
                == QUEUE_CAPACITY,
            Channel::keeps_queues(old(self), final(self)),
    {
        let (sender, receiver) = bounded_queue(QUEUE_CAPACITY);
        let launcher = Launcher { sender };
        let cli_id = self.cli_id;
        self.cli_id += 1;
        self.senders.insert(cli_id, launcher);
        assert forall|id: u64| #[trigger] self@.subscribers.contains(id) implies id
            < self@.next_subscriber by {
            if id != cli_id {
                assert(old(self)@.subscribers.contains(id));
            }
        }
        receiver
    }

    /// Starts a broadcast: takes the next message id and lists the
    /// subscribers the message is owed to.
    pub fn begin_broadcast(&mut self) -> (r: (u64, Vec<u64>))
        requires
            old(self)@.valid(),
            old(self)@.next_message < u64::MAX,
        ensures
            final(self)@.valid(),
            broadcast_begun(old(self)@, final(self)@, r.0, r.1@),
            Channel::keeps_queues(old(self), final(self)),
    {
        let ret = self.msg_id;
        self.msg_id += 1;
        let mut targets: Vec<u64> = Vec::new();
        for id in it: self.senders.keys()
            invariant
                self.senders@ == old(self).senders@,
                self.cli_id == old(self).cli_id,
                self.msg_id == ret + 1,
                targets@.len() == it.index(),
                forall|j: int| 0 <= j < it.index() ==> targets@[j] == *it.seq()[j],
        {
            targets.push(*id);
        }
        proof {
            let keys = vstd::std_specs::hash::spec_keys_iter(&self.senders).remaining().unref();
            assert(targets@ =~= keys);
            assert(self@.subscribers == old(self)@.subscribers);
            assert(self@.next_subscriber == old(self)@.next_subscriber);
        }
        (ret, targets)
    }

    /// The id the next subscriber gets.
    pub fn next_subscriber_id(&self) -> (r: u64)
        ensures
            r == self@.next_subscriber,
    {
        self.cli_id
    }

    /// The id the next message gets.
    pub fn next_message_id(&self) -> (r: u64)
        ensures
            r == self@.next_message,
    {
        self.msg_id
    }

    /// The sending half of a subscriber's queue.
    pub fn queue(&self, id: u64) -> (r: Option<&Sender<Arc<Message>>>)
        ensures
            r is Some <==> self@.subscribers.contains(id),
            r is Some ==> *r.unwrap() == self.sender_of(id),
    {
        match self.senders.get(&id) {
            Some(l) => Some(&l.sender),
            None => None,
        }
    }

    /// Ends a broadcast: drops the subscribers whose queue was found closed.
    pub fn reclaim(&mut self, closed: &Vec<u64>)
        requires
            old(self)@.valid(),
        ensures
            final(self)@.valid(),
            reclaimed(old(self)@, final(self)@, closed@),
            Channel::keeps_queues(old(self), final(self)),
    {
        let mut i: usize = 0;
        while i < closed.len()
            invariant
                i <= closed@.len(),
                self@.subscribers == old(self)@.subscribers.difference(
                    closed@.take(i as int).to_set(),
                ),
                self@.next_subscriber == old(self)@.next_subscriber,
                self@.next_message == old(self)@.next_message,
                Channel::keeps_queues(old(self), self),
            decreases closed@.len() - i,
        {
            let id = closed[i];
            self.senders.remove(&id);
            assert(closed@.take(i + 1) =~= closed@.take(i as int).push(id));
            proof {
                closed@.take(i as int).lemma_push_to_set_commute(id);
            }
            assert(self@.subscribers =~= old(self)@.subscribers.difference(
                closed@.take(i + 1).to_set(),
            ));
            i = i + 1;
        }
        assert(closed@.take(i as int) =~= closed@);
    }
}

} // verus!
