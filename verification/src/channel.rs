//! Channels: a consumer group under a topic, with its own queue, its
//! subscribers and the choice of the subscriber that gets the next message.

use crate::clock::now_millis;
use crate::disk_queue::lemma_filter_step;
use crate::errors::NsqError;
use crate::message::{blank_message, Message, MessageId, MessageView};
use crate::message_queue::{
    bumped, picked, picks, read_gave, redeliveries, ClientId, InFlightView, MessageQueue, Pick,
    QueueView,
};
use crate::validation::{valid_name, validate_topic_channel_name};
use vstd::prelude::*;
use vstd::string::*;
use vstd::utf8::encode_utf8;

verus! {

/// The counters of a channel.
#[derive(Debug, Clone, Copy, PartialEq, Eq, Structural)]
pub struct ChannelStats {
    pub message_count: u64,
    pub depth: u64,
    pub backend_depth: u64,
    pub in_flight_count: u64,
    pub deferred_count: u64,
    pub requeue_count: u64,
    pub timeout_count: u64,
    pub client_count: u64,
}

impl Default for ChannelStats {
    fn default() -> (stats: ChannelStats)
        ensures
            stats == (ChannelStats {
                message_count: 0,
                depth: 0,
                backend_depth: 0,
                in_flight_count: 0,
                deferred_count: 0,
                requeue_count: 0,
                timeout_count: 0,
                client_count: 0,
            }),
    {
        ChannelStats {
            message_count: 0,
            depth: 0,
            backend_depth: 0,
            in_flight_count: 0,
            deferred_count: 0,
            requeue_count: 0,
            timeout_count: 0,
            client_count: 0,
        }
    }
}

/// A client subscribed to a channel, with what flow control needs of it.
#[derive(Debug, Clone, Copy, PartialEq, Eq, Structural)]
pub struct Subscriber {
    pub client_id: ClientId,
    /// The credit left: how many more messages the client takes.
    pub rdy: u32,
    /// How many messages the client may hold at once.
    pub max_in_flight: u32,
    /// How long the client has to acknowledge a message.
    pub msg_timeout: u64,
}

/// A message on its way to a client.
#[derive(Debug)]
pub struct Delivery {
    pub client_id: ClientId,
    pub message: Message,
}

/// An operation on one channel.
#[derive(Debug, Clone, Copy, PartialEq, Eq, Structural)]
pub enum ChannelOp {
    /// Acknowledge a message in flight.
    Finish(MessageId),
    /// Hand a message in flight back, for redelivery after a delay.
    Requeue { id: MessageId, delay: u64 },
    /// Restart the timeout of a message in flight.
    Touch(MessageId),
    /// Subscribe a client.
    Subscribe(Subscriber),
    /// Set the credit of a client.
    Ready { client: ClientId, count: u32 },
    /// Remove a client and hand back what it held.
    Unsubscribe(ClientId),
    /// Stop handing out messages.
    Pause,
    /// Hand out messages again.
    Unpause,
    /// Drop every message.
    Empty,
    /// Hand the oldest pending message to the next subscriber.
    Dispatch,
}

/// A channel as a mathematical value.
pub struct ChannelView {
    pub name: Seq<char>,
    pub topic_name: Seq<char>,
    pub created_at: u64,
    pub paused: bool,
    pub queue: QueueView,
    pub subscribers: Seq<Subscriber>,
    /// Where the search for the next subscriber starts.
    pub cursor: usize,
}

impl ChannelView {
    /// The invariant of a channel: its name is a well-formed channel name,
    /// and no message is in flight or deferred twice in its queue.
    pub open spec fn wf(self) -> bool {
        valid_name(encode_utf8(self.name)) && self.queue.wf()
    }

    /// The number of messages the channel holds in any state.
    pub open spec fn held(self) -> nat {
        self.queue.held()
    }

    /// The channel holds no more messages than were put into it.
    pub open spec fn balanced(self) -> bool {
        self.held() <= self.queue.total_messages
    }

    /// The number of messages that `client` holds in flight.
    pub open spec fn in_flight_of(self, client: ClientId) -> nat {
        picked(self.queue.in_flight, Pick::Client(client)).len()
    }

    /// Whether subscriber `i` can take a message: it has credit left and
    /// holds fewer messages than it may.
    pub open spec fn eligible(self, i: int) -> bool {
        &&& 0 <= i < self.subscribers.len()
        &&& self.subscribers[i].rdy > 0
        &&& self.in_flight_of(self.subscribers[i].client_id) < self.subscribers[i].max_in_flight
    }

    /// The first eligible subscriber in `lo..hi`, or `hi` where there is
    /// none.
    pub open spec fn first_eligible(self, lo: int, hi: int) -> int
        decreases hi - lo,
    {
        if lo >= hi {
            hi
        } else if self.eligible(lo) {
            lo
        } else {
            self.first_eligible(lo + 1, hi)
        }
    }

    /// Where the round-robin search starts: the cursor, or the first
    /// subscriber where the cursor is past the last.
    pub open spec fn start(self) -> int {
        if self.cursor < self.subscribers.len() {
            self.cursor as int
        } else {
            0
        }
    }

    /// The subscriber that gets the next message: the first eligible one at
    /// or after the cursor, going round to the start; `None` where no
    /// subscriber is eligible.
    pub open spec fn chosen(self) -> Option<int> {
        let n = self.subscribers.len() as int;
        let late = self.first_eligible(self.start(), n);
        let early = self.first_eligible(0, self.start());
        if late < n {
            Some(late)
        } else if early < self.start() {
            Some(early)
        } else {
            None
        }
    }

    /// Whether a message can be handed out: the channel is not paused, a
    /// message is pending and a subscriber is eligible.
    pub open spec fn can_dispatch(self) -> bool {
        !self.paused && self.queue.pending.len() > 0 && self.chosen() is Some
    }

    /// The channel after one more message was put into it.
    pub open spec fn after_put(self, m: MessageView) -> ChannelView {
        ChannelView { queue: self.queue.after_put(m), ..self }
    }

    /// The channel after `m` went in flight to `client` at `now`.
    pub open spec fn after_mark(self, m: MessageView, client: ClientId, timeout: u64, now: u64)
        -> ChannelView {
        ChannelView { queue: self.queue.after_mark(m, client, timeout, now), ..self }
    }

    /// The channel after message `id` was acknowledged.
    pub open spec fn after_finish(self, id: MessageId) -> ChannelView {
        ChannelView { queue: self.queue.after_finish(id), ..self }
    }

    /// The channel after the in-flight message `id` was handed back with
    /// `delay` at `now`.
    pub open spec fn after_requeue(self, id: MessageId, delay: u64, now: u64) -> ChannelView {
        ChannelView { queue: self.queue.after_requeue(id, delay, now), ..self }
    }

    /// The channel after the in-flight message `id` was deferred until
    /// `now + delay`.
    pub open spec fn after_defer(self, id: MessageId, delay: u64, now: u64) -> ChannelView {
        ChannelView { queue: self.queue.after_defer(id, delay, now), ..self }
    }

    /// The channel after the timeout of message `id` started anew at `now`.
    pub open spec fn after_touch(self, id: MessageId, now: u64) -> ChannelView {
        ChannelView { queue: self.queue.after_touch(id, now), ..self }
    }

    /// The channel after its oldest pending message went in flight to the
    /// chosen subscriber at `now`: the subscriber has one credit less and
    /// the cursor stands behind it.
    pub open spec fn after_dispatch(self, now: u64) -> ChannelView {
        if self.can_dispatch() {
            let i = self.chosen()->Some_0;
            let s = self.subscribers[i];
            ChannelView {
                queue: self.queue.after_get().after_mark(
                    self.queue.pending[0],
                    s.client_id,
                    s.msg_timeout,
                    now,
                ),
                subscribers: self.subscribers.update(i, Subscriber { rdy: (s.rdy - 1) as u32, ..s }),
                cursor: (i + 1) as usize,
                ..self
            }
        } else {
            self
        }
    }

    /// The channel after the deferred messages ready at `now` went to the
    /// tail of the pending ones, in the order in which they were deferred.
    pub open spec fn after_process_deferred(self, now: u64) -> ChannelView {
        ChannelView {
            queue: self.queue.after_process_deferred(now).after_restore(self.queue.ready(now)),
            ..self
        }
    }

    /// The channel after the in-flight messages timed out at `now` went to
    /// the tail of the pending ones, each with one more attempt counted.
    pub open spec fn after_cleanup(self, now: u64) -> ChannelView {
        ChannelView {
            queue: self.queue.after_cleanup(Pick::Expired(now)).after_restore(
                redeliveries(picked(self.queue.in_flight, Pick::Expired(now))),
            ),
            ..self
        }
    }

    /// The channel after `client` left: it is no subscriber any more, and
    /// every message it held in flight is at the tail of the pending ones
    /// with one more attempt counted, as if handed back without delay.
    pub open spec fn after_remove_client(self, client: ClientId) -> ChannelView {
        ChannelView {
            queue: self.queue.after_release(client).after_restore(
                redeliveries(picked(self.queue.in_flight, Pick::Client(client))),
            ),
            subscribers: self.subscribers.filter(|s: Subscriber| s.client_id != client),
            ..self
        }
    }

    /// The channel after `s` subscribed; an earlier subscription of the same
    /// client is replaced.
    pub open spec fn after_add_client(self, s: Subscriber) -> ChannelView {
        ChannelView {
            subscribers: self.subscribers.filter(|t: Subscriber| t.client_id != s.client_id).push(
                s,
            ),
            ..self
        }
    }

    /// The channel after the credit of `client` was set to `count`.
    pub open spec fn after_ready(self, client: ClientId, count: u32) -> ChannelView {
        ChannelView {
            subscribers: self.subscribers.map_values(
                |s: Subscriber|
                    if s.client_id == client {
                        Subscriber { rdy: count, ..s }
                    } else {
                        s
                    },
            ),
            ..self
        }
    }

    /// The channel after every message was dropped.
    pub open spec fn after_empty(self) -> ChannelView {
        ChannelView { queue: self.queue.after_clear(), ..self }
    }

    /// The channel after it was deleted: paused, without messages and
    /// without subscribers.
    pub open spec fn after_delete(self) -> ChannelView {
        ChannelView {
            queue: self.queue.after_clear(),
            subscribers: Seq::empty(),
            paused: true,
            ..self
        }
    }

    /// Whether `op` succeeds on the channel: an operation on a message needs
    /// the message in flight; any other operation succeeds.
    pub open spec fn admits(self, op: ChannelOp) -> bool {
        match op {
            ChannelOp::Finish(id) => self.queue.is_in_flight(id),
            ChannelOp::Requeue { id, delay } => self.queue.is_in_flight(id),
            ChannelOp::Touch(id) => self.queue.is_in_flight(id),
            _ => true,
        }
    }

    /// The channel after `op` at `now`. Nothing is handed out while the
    /// topic of the channel is paused.
    pub open spec fn after_op(self, op: ChannelOp, now: u64, topic_paused: bool) -> ChannelView {
        match op {
            ChannelOp::Finish(id) => self.after_finish(id),
            ChannelOp::Requeue { id, delay } => self.after_requeue(id, delay, now),
            ChannelOp::Touch(id) => self.after_touch(id, now),
            ChannelOp::Subscribe(s) => self.after_add_client(s),
            ChannelOp::Ready { client, count } => self.after_ready(client, count),
            ChannelOp::Unsubscribe(client) => self.after_remove_client(client),
            ChannelOp::Pause => ChannelView { paused: true, ..self },
            ChannelOp::Unpause => ChannelView { paused: false, ..self },
            ChannelOp::Empty => self.after_empty(),
            ChannelOp::Dispatch => if topic_paused {
                self
            } else {
                self.after_dispatch(now)
            },
        }
    }

    /// Whether `op` at `now` hands out a message.
    pub open spec fn delivers(self, op: ChannelOp, topic_paused: bool) -> bool {
        op is Dispatch && !topic_paused && self.can_dispatch()
    }

    /// The counters of the channel.
    pub open spec fn stats(self) -> ChannelStats {
        ChannelStats {
            message_count: self.queue.total_messages,
            depth: self.queue.pending.len() as u64,
            backend_depth: self.queue.backend_depth() as u64,
            in_flight_count: self.queue.in_flight.len() as u64,
            deferred_count: self.queue.deferred.len() as u64,
            requeue_count: self.queue.requeued,
            timeout_count: self.queue.timed_out,
            client_count: self.subscribers.len() as u64,
        }
    }
}

/// A channel of a topic.
#[derive(Debug)]
pub struct Channel {
    name: String,
    topic_name: String,
    message_queue: MessageQueue,
    created_at: u64,
    paused: bool,
    subscribers: Vec<Subscriber>,
    cursor: usize,
}

impl View for Channel {
    type V = ChannelView;

    closed spec fn view(&self) -> ChannelView {
        ChannelView {
            name: self.name@,
            topic_name: self.topic_name@,
            created_at: self.created_at,
            paused: self.paused,
            queue: self.message_queue@,
            subscribers: self.subscribers@,
            cursor: self.cursor,
        }
    }
}

/// Emptying a channel leaves nothing pending, in flight or deferred, and
/// emptying it again changes nothing.
pub proof fn lemma_empty_idempotent(c: ChannelView)
    ensures
        c.after_empty().queue.pending.len() == 0,
        c.after_empty().queue.in_flight.len() == 0,
        c.after_empty().queue.deferred.len() == 0,
        c.after_empty().held() == 0,
        c.after_empty().after_empty() == c.after_empty(),
{
}

/// Takes the subscriptions of `client` out of `subscribers`.
fn drop_subscriber(subscribers: &mut Vec<Subscriber>, client: ClientId)
    ensures
        final(subscribers)@ == old(subscribers)@.filter(|s: Subscriber| s.client_id != client),
{
    let ghost all = subscribers@;
    let ghost keep = |s: Subscriber| s.client_id != client;
    let mut i: usize = 0;
    let ghost mut k: int = 0;
    proof {
        assert(all.take(0) =~= Seq::<Subscriber>::empty());
        assert(all.skip(0) =~= all);
        assert(all.take(0).filter(keep) + all.skip(0) =~= all);
    }
    while i < subscribers.len()
        invariant
            0 <= k <= all.len(),
            i <= subscribers@.len(),
            keep == |s: Subscriber| s.client_id != client,
            i == all.take(k).filter(keep).len(),
            subscribers@ == all.take(k).filter(keep) + all.skip(k),
        decreases all.len() - k,
    {
        proof {
            lemma_filter_step(all, k, keep);
            assert(subscribers@[i as int] == all.skip(k)[0]);
            assert(all.skip(k).drop_first() =~= all.skip(k + 1));
        }
        if subscribers[i].client_id == client {
            let ghost before = subscribers@;
            subscribers.remove(i);
            proof {
                assert(before.remove(i as int) =~= all.take(k).filter(keep) + all.skip(k + 1));
            }
        } else {
            proof {
                assert(all.take(k).filter(keep).push(all[k]) + all.skip(k + 1) =~= all.take(
                    k,
                ).filter(keep) + all.skip(k));
            }
            i = i + 1;
        }
        proof {
            k = k + 1;
        }
    }
    proof {
        assert(subscribers@.len() == all.take(k).filter(keep).len() + all.skip(k).len());
        assert(all.take(k) =~= all);
        assert(all.skip(k) =~= Seq::<Subscriber>::empty());
        assert(all.filter(keep) + Seq::<Subscriber>::empty() =~= all.filter(keep));
    }
}

impl Channel {
    /// A new channel `name` of topic `topic_name` over `message_queue`,
    /// created now. A name that is not well-formed is a validation error.
    pub fn new(name: String, topic_name: String, message_queue: MessageQueue) -> (res: Result<
        Channel,
        NsqError,
    >)
        requires
            message_queue@.wf(),
        ensures
            res is Ok <==> valid_name(encode_utf8(name@)),
            res is Err ==> res->Err_0 is Validation,
            res is Ok ==> {
                let c = res->Ok_0@;
                &&& c.wf()
                &&& c.name == name@
                &&& c.topic_name == topic_name@
                &&& c.queue == message_queue@
                &&& !c.paused
                &&& c.subscribers.len() == 0
                &&& c.cursor == 0
            },
    {
        Channel::new_at(name, topic_name, message_queue, now_millis())
    }

    /// A new channel `name` of topic `topic_name` over `message_queue`,
    /// created at `now`. A name that is not well-formed is a validation
    /// error.
    pub fn new_at(name: String, topic_name: String, message_queue: MessageQueue, now: u64) -> (res:
        Result<Channel, NsqError>)
        requires
            message_queue@.wf(),
        ensures
            res is Ok <==> valid_name(encode_utf8(name@)),
            res is Err ==> res->Err_0 is Validation,
            res is Ok ==> {
                let c = res->Ok_0@;
                &&& c.wf()
                &&& c.name == name@
                &&& c.topic_name == topic_name@
                &&& c.queue == message_queue@
                &&& c.created_at == now
                &&& !c.paused
                &&& c.subscribers.len() == 0
                &&& c.cursor == 0
            },
    {
        match validate_topic_channel_name(name.as_str()) {
            Ok(()) => {},
            Err(e) => {
                return Err(e);
            },
        }
        Ok(
            Channel {
                name,
                topic_name,
                message_queue,
                created_at: now,
                paused: false,
                subscribers: Vec::new(),
                cursor: 0,
            },
        )
    }

    /// The name of the channel.
    pub fn name(&self) -> (name: &String)
        ensures
            name@ == self@.name,
    {
        &self.name
    }

    /// The name of the topic that the channel belongs to.
    pub fn topic_name(&self) -> (name: &String)
        ensures
            name@ == self@.topic_name,
    {
        &self.topic_name
    }

    /// When the channel was created.
    pub fn created_at(&self) -> (t: u64)
        ensures
            t == self@.created_at,
    {
        self.created_at
    }

    /// Puts a copy of a published message into the channel. A paused channel
    /// and one without subscribers take messages as any other.
    pub fn distribute_message(&mut self, message: Message) -> (res: Result<(), NsqError>)
        ensures
            final(self)@ == old(self)@.after_put(message@),
            res is Ok <==> old(self)@.queue.accepts(message@),
            res is Err ==> res->Err_0 is Queue || res->Err_0 is Validation,
            old(self)@.wf() ==> final(self)@.wf(),
    {
        self.message_queue.put(message)
    }

    /// Puts a new message into the channel for delivery at `ready_at`.
    pub fn distribute_deferred_at(&mut self, message: Message, ready_at: u64) -> (res: Result<
        (),
        NsqError,
    >)
        ensures
            final(self)@ == (ChannelView {
                queue: old(self)@.queue.after_put_deferred(message@, ready_at),
                ..old(self)@
            }),
            res is Ok <==> old(self)@.queue.countable(),
            res is Err ==> res->Err_0 is Queue,
            old(self)@.wf() ==> final(self)@.wf(),
    {
        self.message_queue.put_deferred_at(message, ready_at)
    }

    /// Takes the oldest pending message out of the channel; a paused channel
    /// gives none.
    pub fn get_message(&mut self) -> (res: Result<Option<Message>, NsqError>)
        ensures
            res is Ok,
            old(self)@.paused ==> res->Ok_0 is None && final(self)@ == old(self)@,
            !old(self)@.paused ==> final(self)@ == (ChannelView {
                queue: old(self)@.queue.after_get(),
                ..old(self)@
            }) && match res->Ok_0 {
                Some(m) => old(self)@.queue.pending.len() > 0 && m@ == old(self)@.queue.pending[0],
                None => old(self)@.queue.pending.len() == 0,
            },
            old(self)@.wf() ==> final(self)@.wf(),
    {
        if self.paused {
            return Ok(None);
        }
        self.message_queue.get()
    }

    /// Records that `message` was handed to `client_id` just now.
    pub fn mark_in_flight(&mut self, message: Message, client_id: ClientId, timeout: u64) -> (res:
        Result<(), NsqError>)
        ensures
            res is Ok,
            exists|now: u64|
                final(self)@ == old(self)@.after_mark(message@, client_id, timeout, now),
            old(self)@.wf() ==> final(self)@.wf(),
    {
        let now = now_millis();
        let res = self.mark_in_flight_at(message, client_id, timeout, now);
        proof {
            assert(final(self)@ == old(self)@.after_mark(message@, client_id, timeout, now));
        }
        res
    }

    /// Records that `message` was handed to `client_id` at `now`.
    pub fn mark_in_flight_at(
        &mut self,
        message: Message,
        client_id: ClientId,
        timeout: u64,
        now: u64,
    ) -> (res: Result<(), NsqError>)
        ensures
            res is Ok,
            final(self)@ == old(self)@.after_mark(message@, client_id, timeout, now),
            old(self)@.wf() ==> final(self)@.wf(),
    {
        self.message_queue.mark_in_flight_at(message, client_id, timeout, now)
    }

    /// Acknowledges message `message_id`. A message that is not in flight is
    /// a queue error and changes nothing.
    pub fn finish_message(&mut self, message_id: MessageId) -> (res: Result<(), NsqError>)
        ensures
            final(self)@ == old(self)@.after_finish(message_id),
            res is Ok <==> old(self)@.queue.is_in_flight(message_id),
            res is Err ==> res->Err_0 is Queue && final(self)@ == old(self)@,
            old(self)@.wf() ==> final(self)@.wf(),
    {
        self.message_queue.finish(message_id)
    }

    /// Hands the in-flight message `message_id` back, with `delay` counted
    /// from now.
    pub fn requeue_message(&mut self, message_id: MessageId, delay: u64) -> (res: Result<
        (),
        NsqError,
    >)
        ensures
            res is Ok <==> old(self)@.queue.is_in_flight(message_id),
            exists|now: u64|
                final(self)@ == old(self)@.after_requeue(message_id, delay, now),
            old(self)@.wf() ==> final(self)@.wf(),
    {
        let now = now_millis();
        let res = self.requeue_message_at(message_id, delay, now);
        proof {
            assert(final(self)@ == old(self)@.after_requeue(message_id, delay, now));
        }
        res
    }

    /// Hands the in-flight message `message_id` back at `now`: to the tail
    /// of the pending messages without delay, else deferred until
    /// `now + delay`. A message that is not in flight is a queue error and
    /// changes nothing.
    pub fn requeue_message_at(&mut self, message_id: MessageId, delay: u64, now: u64) -> (res:
        Result<(), NsqError>)
        ensures
            final(self)@ == old(self)@.after_requeue(message_id, delay, now),
            res is Ok <==> old(self)@.queue.is_in_flight(message_id),
            res is Err ==> res->Err_0 is Queue,
            old(self)@.wf() ==> final(self)@.wf(),
    {
        self.message_queue.requeue_at(message_id, delay, now)
    }

    /// Defers the in-flight message `message_id` by `delay`, counted from
    /// now.
    pub fn defer_message(&mut self, message_id: MessageId, delay: u64) -> (res: Result<
        (),
        NsqError,
    >)
        ensures
            res is Ok <==> old(self)@.queue.is_in_flight(message_id),
            exists|now: u64|
                final(self)@ == old(self)@.after_defer(message_id, delay, now),
            old(self)@.wf() ==> final(self)@.wf(),
    {
        let now = now_millis();
        let res = self.defer_message_at(message_id, delay, now);
        proof {
            assert(final(self)@ == old(self)@.after_defer(message_id, delay, now));
        }
        res
    }

    /// Defers the in-flight message `message_id` until `now + delay`. A
    /// message that is not in flight is a queue error and changes nothing.
    pub fn defer_message_at(&mut self, message_id: MessageId, delay: u64, now: u64) -> (res:
        Result<(), NsqError>)
        ensures
            final(self)@ == old(self)@.after_defer(message_id, delay, now),
            res is Ok <==> old(self)@.queue.is_in_flight(message_id),
            res is Err ==> res->Err_0 is Queue,
            old(self)@.wf() ==> final(self)@.wf(),
    {
        self.message_queue.defer_at(message_id, delay, now)
    }

    /// Starts the timeout of the in-flight message `message_id` anew at
    /// `now`. A message that is not in flight is a queue error and changes
    /// nothing.
    pub fn touch_message_at(&mut self, message_id: MessageId, now: u64) -> (res: Result<
        (),
        NsqError,
    >)
        ensures
            final(self)@ == old(self)@.after_touch(message_id, now),
            res is Ok <==> old(self)@.queue.is_in_flight(message_id),
            res is Err ==> res->Err_0 is Queue,
            old(self)@.wf() ==> final(self)@.wf(),
    {
        self.message_queue.touch_at(message_id, now)
    }

    /// Moves the deferred messages that are ready now to the pending ones.
    pub fn process_deferred(&mut self) -> (res: Result<(), NsqError>)
        ensures
            res is Ok,
            exists|now: u64| final(self)@ == old(self)@.after_process_deferred(now),
            old(self)@.wf() ==> final(self)@.wf(),
    {
        let now = now_millis();
        let res = self.process_deferred_at(now);
        proof {
            assert(final(self)@ == old(self)@.after_process_deferred(now));
        }
        res
    }

    /// Moves the deferred messages whose time has come at `now` to the tail
    /// of the pending ones, in the order in which they were deferred.
    pub fn process_deferred_at(&mut self, now: u64) -> (res: Result<(), NsqError>)
        ensures
            res is Ok,
            final(self)@ == old(self)@.after_process_deferred(now),
            old(self)@.wf() ==> final(self)@.wf(),
    {
        match self.message_queue.process_deferred_at(now) {
            Ok(ready) => {
                self.message_queue.restore(ready);
            },
            Err(_) => {},
        }
        Ok(())
    }

    /// Moves the in-flight messages that have timed out by now back to the
    /// pending ones.
    pub fn cleanup_timeouts(&mut self) -> (res: Result<(), NsqError>)
        ensures
            res is Ok,
            exists|now: u64| final(self)@ == old(self)@.after_cleanup(now),
            old(self)@.wf() ==> final(self)@.wf(),
    {
        let now = now_millis();
        let res = self.cleanup_timeouts_at(now);
        proof {
            assert(final(self)@ == old(self)@.after_cleanup(now));
        }
        res
    }

    /// Moves the in-flight messages that have timed out at `now` to the tail
    /// of the pending ones, each with one more attempt counted.
    pub fn cleanup_timeouts_at(&mut self, now: u64) -> (res: Result<(), NsqError>)
        ensures
            res is Ok,
            final(self)@ == old(self)@.after_cleanup(now),
            old(self)@.wf() ==> final(self)@.wf(),
    {
        match self.message_queue.cleanup_timeouts_at(now) {
            Ok(expired) => {
                self.message_queue.restore(expired);
            },
            Err(_) => {},
        }
        Ok(())
    }

    /// Subscribes a client; an earlier subscription of the same client is
    /// replaced.
    pub fn add_client(&mut self, subscriber: Subscriber)
        ensures
            final(self)@ == old(self)@.after_add_client(subscriber),
            old(self)@.wf() ==> final(self)@.wf(),
    {
        drop_subscriber(&mut self.subscribers, subscriber.client_id);
        self.subscribers.push(subscriber);
    }

    /// Removes a client that left. Every message it held in flight goes to
    /// the tail of the pending messages, as if handed back without delay.
    pub fn remove_client(&mut self, client_id: ClientId)
        ensures
            final(self)@ == old(self)@.after_remove_client(client_id),
            final(self)@.in_flight_of(client_id) == 0,
            old(self)@.wf() ==> final(self)@.wf(),
    {
        drop_subscriber(&mut self.subscribers, client_id);
        let back = self.message_queue.release_client(client_id);
        self.message_queue.restore(back);
        proof {
            lemma_released(old(self)@.queue.in_flight, client_id);
        }
    }

    /// Sets the credit of `client_id` to `count`.
    pub fn set_ready(&mut self, client_id: ClientId, count: u32)
        ensures
            final(self)@ == old(self)@.after_ready(client_id, count),
            old(self)@.wf() ==> final(self)@.wf(),
    {
        let ghost all = self.subscribers@;
        let n = self.subscribers.len();
        let mut i: usize = 0;
        while i < n
            invariant
                i <= n,
                n == all.len(),
                self.subscribers@.len() == n,
                forall|k: int|
                    0 <= k < i ==> self.subscribers@[k] == old(self)@.after_ready(
                        client_id,
                        count,
                    ).subscribers[k],
                forall|k: int| i <= k < n ==> self.subscribers@[k] == all[k],
                all == old(self)@.subscribers,
                self.name == old(self).name,
                self.topic_name == old(self).topic_name,
                self.message_queue == old(self).message_queue,
                self.created_at == old(self).created_at,
                self.paused == old(self).paused,
                self.cursor == old(self).cursor,
            decreases n - i,
        {
            if self.subscribers[i].client_id == client_id {
                let s = self.subscribers[i];
                self.subscribers[i] = Subscriber { rdy: count, ..s };
            }
            i = i + 1;
        }
        proof {
            assert(self.subscribers@ =~= old(self)@.after_ready(client_id, count).subscribers);
        }
    }

    /// Whether subscriber `i` can take a message.
    fn is_eligible(&self, i: usize) -> (yes: bool)
        requires
            i < self@.subscribers.len(),
        ensures
            yes == self@.eligible(i as int),
    {
        let s = self.subscribers[i];
        s.rdy > 0 && self.message_queue.in_flight_for(s.client_id) < s.max_in_flight as usize
    }

    /// The first eligible subscriber in `lo..hi`, or `hi`.
    fn scan_eligible(&self, lo: usize, hi: usize) -> (at: usize)
        requires
            lo <= hi <= self@.subscribers.len(),
        ensures
            at == self@.first_eligible(lo as int, hi as int),
            lo <= at <= hi,
    {
        let mut i = lo;
        while i < hi
            invariant
                lo <= i <= hi,
                hi <= self@.subscribers.len(),
                self@.first_eligible(lo as int, hi as int) == self@.first_eligible(
                    i as int,
                    hi as int,
                ),
            decreases hi - i,
        {
            if self.is_eligible(i) {
                return i;
            }
            i = i + 1;
        }
        hi
    }

    /// Chooses the subscriber that gets the next message: round-robin over
    /// the subscribers with credit, starting at the cursor.
    pub fn choose_client(&self) -> (res: Option<usize>)
        ensures
            match res {
                Some(i) => self@.chosen() == Some(i as int) && self@.eligible(i as int),
                None => self@.chosen() is None,
            },
    {
        let n = self.subscribers.len();
        let start = if self.cursor < n {
            self.cursor
        } else {
            0
        };
        let late = self.scan_eligible(start, n);
        proof {
            self@.lemma_first_eligible(start as int, n as int);
            self@.lemma_first_eligible(0, start as int);
        }
        if late < n {
            return Some(late);
        }
        let early = self.scan_eligible(0, start);
        if early < start {
            Some(early)
        } else {
            None
        }
    }

    /// Hands the oldest pending message to the chosen subscriber at `now`.
    ///
    /// A message is handed out exactly when the channel is not paused, a
    /// message is pending and some subscriber is eligible. The subscriber
    /// loses one credit and the message goes in flight with the subscriber's
    /// timeout.
    pub fn dispatch_at(&mut self, now: u64) -> (res: Option<Delivery>)
        ensures
            final(self)@ == old(self)@.after_dispatch(now),
            res is Some <==> old(self)@.can_dispatch(),
            res is Some ==> {
                let i = old(self)@.chosen()->Some_0;
                &&& res->Some_0.client_id == old(self)@.subscribers[i].client_id
                &&& res->Some_0.message@ == old(self)@.queue.pending[0]
            },
            old(self)@.wf() ==> final(self)@.wf(),
    {
        if self.paused || self.message_queue.depth() == 0 {
            return None;
        }
        let i = match self.choose_client() {
            Some(i) => i,
            None => {
                return None;
            },
        };
        let n = self.subscribers.len();
        assert(i < n);
        let s = self.subscribers[i];
        let message = match self.message_queue.get() {
            Ok(Some(m)) => m,
            _ => {
                return None;
            },
        };
        let copy = message.clone();
        let _ = self.message_queue.mark_in_flight_at(message, s.client_id, s.msg_timeout, now);
        self.subscribers[i] = Subscriber { rdy: s.rdy - 1, ..s };
        self.cursor = i + 1;
        proof {
            assert(self.subscribers@ =~= old(self)@.subscribers.update(
                i as int,
                Subscriber { rdy: (s.rdy - 1) as u32, ..s },
            ));
        }
        Some(Delivery { client_id: s.client_id, message: copy })
    }

    /// Applies `op` at `now`.
    ///
    /// An operation on a message that is not in flight is a queue error and
    /// changes nothing. `Dispatch` gives the message it handed out, if any;
    /// it hands out none while the topic is paused.
    pub fn apply(&mut self, op: ChannelOp, now: u64, topic_paused: bool) -> (res: Result<
        Option<Delivery>,
        NsqError,
    >)
        ensures
            final(self)@ == old(self)@.after_op(op, now, topic_paused),
            res is Ok <==> old(self)@.admits(op),
            res is Err ==> res->Err_0 is Queue,
            res is Ok ==> (res->Ok_0 is Some <==> old(self)@.delivers(op, topic_paused)),
            res is Ok && res->Ok_0 is Some ==> {
                let i = old(self)@.chosen()->Some_0;
                &&& res->Ok_0->Some_0.client_id == old(self)@.subscribers[i].client_id
                &&& res->Ok_0->Some_0.message@ == old(self)@.queue.pending[0]
            },
            old(self)@.wf() ==> final(self)@.wf(),
    {
        match op {
            ChannelOp::Finish(id) => match self.finish_message(id) {
                Ok(()) => Ok(None),
                Err(e) => Err(e),
            },
            ChannelOp::Requeue { id, delay } => match self.requeue_message_at(id, delay, now) {
                Ok(()) => Ok(None),
                Err(e) => Err(e),
            },
            ChannelOp::Touch(id) => match self.touch_message_at(id, now) {
                Ok(()) => Ok(None),
                Err(e) => Err(e),
            },
            ChannelOp::Subscribe(s) => {
                self.add_client(s);
                Ok(None)
            },
            ChannelOp::Ready { client, count } => {
                self.set_ready(client, count);
                Ok(None)
            },
            ChannelOp::Unsubscribe(client) => {
                self.remove_client(client);
                Ok(None)
            },
            ChannelOp::Pause => {
                self.paused = true;
                Ok(None)
            },
            ChannelOp::Unpause => {
                self.paused = false;
                Ok(None)
            },
            ChannelOp::Empty => {
                self.message_queue.clear();
                Ok(None)
            },
            ChannelOp::Dispatch => {
                if topic_paused {
                    Ok(None)
                } else {
                    Ok(self.dispatch_at(now))
                }
            },
        }
    }

    /// Takes over a message that the topic held before the channel existed.
    pub fn adopt_message(&mut self, message: Message) -> (res: Result<(), NsqError>)
        ensures
            final(self)@ == (ChannelView {
                queue: old(self)@.queue.after_adopt(message@),
                ..old(self)@
            }),
            res is Ok <==> old(self)@.queue.countable(),
            res is Err ==> res->Err_0 is Queue,
            old(self)@.wf() ==> final(self)@.wf(),
    {
        self.message_queue.adopt(message)
    }

    /// Whether the channel takes `n` more new messages of at most `big`
    /// bytes on the wire each.
    pub fn has_room(&self, n: usize, big: usize) -> (yes: bool)
        ensures
            yes == self@.queue.has_room(n as nat, big as nat),
    {
        self.message_queue.has_room(n, big)
    }

    /// Whether the channel takes the new message `message`.
    pub fn accepts(&self, message: &Message) -> (yes: bool)
        ensures
            yes == self@.queue.accepts(message@),
    {
        self.message_queue.accepts(message)
    }

    /// Reads the next record of the channel's disk backing out of `segment`,
    /// the bytes of the segment that the backing reads next. The result
    /// tells whether a message came back; a record that is no message is
    /// dropped with a protocol error.
    pub fn read_disk(&mut self, segment: &[u8]) -> (res: Result<bool, NsqError>)
        ensures
            final(self)@ == (ChannelView {
                queue: old(self)@.queue.after_read_disk(segment@),
                ..old(self)@
            }),
            read_gave(res, old(self)@.queue.read_back(segment@)),
            old(self)@.wf() ==> final(self)@.wf(),
    {
        self.message_queue.read_disk(segment)
    }

    /// The counters of the channel.
    pub fn stats(&self) -> (stats: ChannelStats)
        ensures
            stats == self@.stats(),
            stats.depth == self@.queue.pending.len(),
            stats.backend_depth == self@.queue.backend_depth(),
            stats.in_flight_count == self@.queue.in_flight.len(),
            stats.deferred_count == self@.queue.deferred.len(),
            stats.client_count == self@.subscribers.len(),
    {
        let q = self.message_queue.stats();
        ChannelStats {
            message_count: q.total_messages,
            depth: self.message_queue.depth() as u64,
            backend_depth: self.message_queue.backend_depth(),
            in_flight_count: q.messages_in_flight,
            deferred_count: q.messages_deferred,
            requeue_count: q.messages_requeued,
            timeout_count: q.messages_timed_out,
            client_count: self.subscribers.len() as u64,
        }
    }

    /// The number of messages pending in memory.
    pub fn depth(&self) -> (n: usize)
        ensures
            n == self@.queue.pending.len(),
    {
        self.message_queue.depth()
    }

    /// The number of messages in flight.
    pub fn in_flight_count(&self) -> (n: usize)
        ensures
            n == self@.queue.in_flight.len(),
    {
        self.message_queue.in_flight_count()
    }

    /// The number of deferred messages.
    pub fn deferred_count(&self) -> (n: usize)
        ensures
            n == self@.queue.deferred.len(),
    {
        self.message_queue.deferred_count()
    }

    /// Pauses the channel: no message is handed out until it is unpaused.
    pub fn pause(&mut self) -> (res: Result<(), NsqError>)
        ensures
            res is Ok,
            final(self)@ == (ChannelView { paused: true, ..old(self)@ }),
            old(self)@.wf() ==> final(self)@.wf(),
    {
        self.paused = true;
        Ok(())
    }

    /// Lets the channel hand out messages again.
    pub fn unpause(&mut self) -> (res: Result<(), NsqError>)
        ensures
            res is Ok,
            final(self)@ == (ChannelView { paused: false, ..old(self)@ }),
            old(self)@.wf() ==> final(self)@.wf(),
    {
        self.paused = false;
        Ok(())
    }

    /// Whether the channel is paused.
    pub fn is_paused(&self) -> (paused: bool)
        ensures
            paused == self@.paused,
    {
        self.paused
    }

    /// Drops every pending, in-flight and deferred message of the channel.
    pub fn empty(&mut self) -> (res: Result<(), NsqError>)
        ensures
            res is Ok,
            final(self)@ == old(self)@.after_empty(),
            old(self)@.wf() ==> final(self)@.wf(),
    {
        self.message_queue.clear();
        Ok(())
    }

    /// Deletes the channel: it is paused and loses its messages and its
    /// subscribers.
    pub fn delete(&mut self) -> (res: Result<(), NsqError>)
        ensures
            res is Ok,
            final(self)@ == old(self)@.after_delete(),
            old(self)@.wf() ==> final(self)@.wf(),
    {
        self.paused = true;
        self.message_queue.clear();
        self.subscribers.clear();
        Ok(())
    }

    /// The queue of the channel.
    pub fn queue(&self) -> (q: &MessageQueue)
        ensures
            q@ == self@.queue,
    {
        &self.message_queue
    }

    /// Gives up records of the channel that were planned for disk and could
    /// not be written: the `lost` records that were handed over, of which
    /// the first was to go to `offset` in segment `file_num`, and those that
    /// still wait to be handed over. The result tells whether that could be;
    /// if not, nothing changes.
    pub fn give_up_disk_writes(&mut self, file_num: u64, offset: u64, lost: u64) -> (done: bool)
        ensures
            done == old(self)@.queue.can_give_up(file_num, offset, lost),
            final(self)@ == (ChannelView {
                queue: old(self)@.queue.after_give_up(file_num, offset, lost),
                ..old(self)@
            }),
            old(self)@.wf() ==> final(self)@.wf(),
    {
        self.message_queue.give_up_disk_writes(file_num, offset, lost)
    }

    /// Hands over the records that wait to be appended to the disk backing
    /// of the channel, oldest first.
    pub fn take_disk_writes(&mut self) -> (writes: Vec<crate::disk_queue::DiskWrite>)
        ensures
            crate::message_queue::write_views(writes@) == old(self)@.queue.spill,
            final(self)@ == (ChannelView {
                queue: QueueView { spill: Seq::empty(), ..old(self)@.queue },
                ..old(self)@
            }),
            old(self)@.wf() ==> final(self)@.wf(),
    {
        self.message_queue.take_disk_writes()
    }
}

impl ChannelView {
    /// No operation on a channel but putting a message into it makes it hold
    /// more: a channel that holds no more than was put into it stays so.
    pub proof fn lemma_balanced(self, m: MessageView, id: MessageId, client: ClientId, t: u64)
        requires
            self.balanced(),
        ensures
            self.after_put(m).balanced(),
            self.after_dispatch(t).balanced(),
            self.after_finish(id).balanced(),
            self.after_requeue(id, t, t).balanced(),
            self.after_defer(id, t, t).balanced(),
            self.after_touch(id, t).balanced(),
            self.after_process_deferred(t).balanced(),
            self.after_cleanup(t).balanced(),
            self.after_remove_client(client).balanced(),
            self.after_add_client(Subscriber { client_id: client, rdy: 0, max_in_flight: 0, msg_timeout: t }).balanced(),
            self.after_ready(client, 0).balanced(),
            self.after_empty().balanced(),
            self.after_delete().balanced(),
            forall|segment: Seq<u8>|
                (#[trigger] self.queue.after_read_disk(segment)).held() <= self.held()
                    && self.queue.after_read_disk(segment).total_messages
                    == self.queue.total_messages,
    {
        self.queue.lemma_held(m, id, client, t, t);
    }

    /// A message that timed out comes back: after the sweep at `now`, every
    /// in-flight entry whose timeout has passed is in flight no more, and
    /// its message is pending again, unchanged but for one more attempt
    /// counted.
    pub proof fn lemma_timed_out_comes_back(self, now: u64, i: int)
        requires
            0 <= i < self.queue.in_flight.len(),
            self.queue.in_flight[i].expired(now),
        ensures
            self.after_cleanup(now).queue.pending.contains(
                bumped(self.queue.in_flight[i].message),
            ),
            forall|k: int|
                0 <= k < self.after_cleanup(now).queue.in_flight.len() ==> !(
                #[trigger] self.after_cleanup(now).queue.in_flight[k]).expired(now),
            bumped(self.queue.in_flight[i].message).body == self.queue.in_flight[i].message.body,
            bumped(self.queue.in_flight[i].message).id == self.queue.in_flight[i].message.id,
    {
        let e = self.queue.in_flight[i];
        let pick = Pick::Expired(now);
        let out = picked(self.queue.in_flight, pick);
        self.queue.in_flight.lemma_filter_contains(|x: InFlightView| picks(pick, x), i);
        let j = choose|j: int| 0 <= j < out.len() && out[j] == e;
        let back = redeliveries(out);
        assert(back[j] == bumped(e.message));
        let pending = self.after_cleanup(now).queue.pending;
        assert(pending == self.queue.pending + back);
        assert(pending[self.queue.pending.len() + j] == bumped(e.message));
        crate::seqs::lemma_filter_passes(self.queue.in_flight, |x: InFlightView| !picks(pick, x));
    }

    /// Every operation keeps the invariant of a channel: no message comes to
    /// be in flight or deferred twice.
    pub proof fn lemma_wf_kept(
        self,
        op: ChannelOp,
        now: u64,
        topic_paused: bool,
        m: MessageView,
        ready_at: u64,
        client: ClientId,
    )
        requires
            self.wf(),
        ensures
            self.after_op(op, now, topic_paused).wf(),
            self.after_put(m).wf(),
            self.after_process_deferred(now).wf(),
            self.after_cleanup(now).wf(),
            self.after_remove_client(client).wf(),
            (ChannelView { queue: self.queue.after_put_deferred(m, ready_at), ..self }).wf(),
            (ChannelView { queue: self.queue.after_adopt(m), ..self }).wf(),
            self.after_empty().wf(),
            self.after_delete().wf(),
    {
        let q = self.queue;
        let none = Seq::<u8>::empty();
        let no_messages = Seq::<MessageView>::empty();
        q.lemma_wf_kept(m, m.id, client, 0, ready_at, Pick::Expired(now), none, no_messages);
        q.lemma_wf_kept(m, m.id, client, 0, now, Pick::Expired(now), none, no_messages);
        q.after_process_deferred(now).lemma_wf_kept(
            m,
            m.id,
            client,
            0,
            now,
            Pick::Expired(now),
            none,
            q.ready(now),
        );
        q.after_cleanup(Pick::Expired(now)).lemma_wf_kept(
            m,
            m.id,
            client,
            0,
            now,
            Pick::Expired(now),
            none,
            redeliveries(picked(q.in_flight, Pick::Expired(now))),
        );
        q.after_release(client).lemma_wf_kept(
            m,
            m.id,
            client,
            0,
            now,
            Pick::Expired(now),
            none,
            redeliveries(picked(q.in_flight, Pick::Client(client))),
        );
        match op {
            ChannelOp::Finish(id) => {
                q.lemma_wf_kept(m, id, client, 0, now, Pick::Expired(now), none, no_messages);
            },
            ChannelOp::Requeue { id, delay } => {
                q.lemma_wf_kept(m, id, client, delay, now, Pick::Expired(now), none, no_messages);
            },
            ChannelOp::Touch(id) => {
                q.lemma_wf_kept(m, id, client, 0, now, Pick::Expired(now), none, no_messages);
            },
            ChannelOp::Unsubscribe(leaving) => {
                q.lemma_wf_kept(m, m.id, leaving, 0, now, Pick::Expired(now), none, no_messages);
                q.after_release(leaving).lemma_wf_kept(
                    m,
                    m.id,
                    leaving,
                    0,
                    now,
                    Pick::Expired(now),
                    none,
                    redeliveries(picked(q.in_flight, Pick::Client(leaving))),
                );
            },
            ChannelOp::Dispatch => {
                if !topic_paused && self.can_dispatch() {
                    let i = self.chosen()->Some_0;
                    let s = self.subscribers[i];
                    q.after_get().lemma_wf_kept(
                        q.pending[0],
                        m.id,
                        s.client_id,
                        s.msg_timeout,
                        now,
                        Pick::Expired(now),
                        none,
                        no_messages,
                    );
                }
            },
            _ => {},
        }
    }

    /// An operation on a channel that holds no more than was put into it
    /// leaves it so, and keeps its name and the count of what was put.
    pub proof fn lemma_op_keeps(self, op: ChannelOp, now: u64, topic_paused: bool)
        requires
            self.balanced(),
        ensures
            self.after_op(op, now, topic_paused).balanced(),
            self.after_op(op, now, topic_paused).name == self.name,
            self.after_op(op, now, topic_paused).topic_name == self.topic_name,
            self.after_op(op, now, topic_paused).queue.total_messages == self.queue.total_messages,
    {
        match op {
            ChannelOp::Finish(id) => {
                self.queue.lemma_held(blank_message(), id, ClientId { hi: 0, lo: 0 }, 0, now);
            },
            ChannelOp::Requeue { id, delay } => {
                self.queue.lemma_held(
                    blank_message(),
                    id,
                    ClientId { hi: 0, lo: 0 },
                    delay,
                    now,
                );
            },
            ChannelOp::Touch(id) => {
                self.queue.lemma_held(blank_message(), id, ClientId { hi: 0, lo: 0 }, 0, now);
            },
            ChannelOp::Unsubscribe(client) => {
                self.queue.lemma_held(
                    blank_message(),
                    MessageId { hi: 0, lo: 0 },
                    client,
                    0,
                    now,
                );
            },
            ChannelOp::Empty => {
                self.queue.lemma_held(
                    blank_message(),
                    MessageId { hi: 0, lo: 0 },
                    ClientId { hi: 0, lo: 0 },
                    0,
                    now,
                );
            },
            ChannelOp::Dispatch => {
                if !topic_paused && self.can_dispatch() {
                    let s = self.subscribers[self.chosen()->Some_0];
                    self.queue.lemma_held(
                        blank_message(),
                        MessageId { hi: 0, lo: 0 },
                        s.client_id,
                        s.msg_timeout,
                        now,
                    );
                }
            },
            _ => {},
        }
    }

    /// A message that was put into a channel stays there until it is
    /// acknowledged or the channel is emptied: whatever else is done to the
    /// channel, a message that it held in memory before it holds after.
    pub proof fn lemma_nothing_is_lost(self, op: ChannelOp, now: u64, topic_paused: bool, id: MessageId)
        requires
            self.queue.holds(id),
            op != ChannelOp::Finish(id),
            op != ChannelOp::Empty,
        ensures
            self.after_op(op, now, topic_paused).queue.holds(id),
    {
        let zero = ClientId { hi: 0, lo: 0 };
        let none = MessageId { hi: 0, lo: 0 };
        let m = blank_message();
        match op {
            ChannelOp::Finish(other) => {
                self.queue.lemma_nothing_is_lost(id, m, other, zero, 0, now);
            },
            ChannelOp::Requeue { id: other, delay } => {
                self.queue.lemma_nothing_is_lost(id, m, other, zero, delay, now);
            },
            ChannelOp::Touch(other) => {
                self.queue.lemma_nothing_is_lost(id, m, other, zero, 0, now);
            },
            ChannelOp::Unsubscribe(client) => {
                self.queue.lemma_nothing_is_lost(id, m, none, client, 0, now);
            },
            ChannelOp::Dispatch => {
                if !topic_paused && self.can_dispatch() {
                    let s = self.subscribers[self.chosen()->Some_0];
                    self.queue.lemma_nothing_is_lost(id, m, none, s.client_id, s.msg_timeout, now);
                }
            },
            _ => {},
        }
    }

    /// Publishing and the periodic sweeps lose no message either, and a
    /// message that a channel takes is held by it.
    pub proof fn lemma_sweeps_lose_nothing(self, now: u64, id: MessageId, m: MessageView)
        requires
            self.queue.holds(id),
        ensures
            self.after_put(m).queue.holds(id),
            self.after_process_deferred(now).queue.holds(id),
            self.after_cleanup(now).queue.holds(id),
    {
        self.queue.lemma_nothing_is_lost(
            id,
            m,
            MessageId { hi: 0, lo: 0 },
            ClientId { hi: 0, lo: 0 },
            0,
            now,
        );
    }

    /// While a channel is not paused and a subscriber is eligible, the
    /// oldest pending message is the one that goes in flight.
    pub proof fn lemma_dispatch_hands_out_oldest(self, now: u64)
        requires
            self.can_dispatch(),
        ensures
            crate::message_queue::has_entry(
                self.after_dispatch(now).queue.in_flight,
                self.queue.pending[0].id,
            ),
    {
        let s = self.subscribers[self.chosen()->Some_0];
        let first = self.queue.pending[0];
        crate::message_queue::lemma_more_entries(
            crate::message_queue::unpicked(self.queue.after_get().in_flight, Pick::Id(first.id)),
            crate::message_queue::InFlightView {
                message: first,
                client_id: s.client_id,
                start_time: now,
                timeout: s.msg_timeout,
                requeue_count: 0,
            },
            first.id,
        );
    }

    /// An operation that fails changes nothing.
    pub proof fn lemma_failed_op(self, op: ChannelOp, now: u64, topic_paused: bool)
        requires
            !self.admits(op),
        ensures
            self.after_op(op, now, topic_paused) == self,
    {
        match op {
            ChannelOp::Finish(id) => {
                crate::message_queue::lemma_none_picked(self.queue.in_flight, Pick::Id(id));
            },
            ChannelOp::Requeue { id, delay } => {},
            ChannelOp::Touch(id) => {
                crate::message_queue::lemma_touch_none(self.queue.in_flight, id, now);
            },
            _ => {},
        }
    }

    /// `first_eligible` is in range, eligible where it is inside, and no
    /// subscriber before it in the range is eligible.
    pub proof fn lemma_first_eligible(self, lo: int, hi: int)
        requires
            0 <= lo <= hi <= self.subscribers.len(),
        ensures
            lo <= self.first_eligible(lo, hi) <= hi,
            self.first_eligible(lo, hi) < hi ==> self.eligible(self.first_eligible(lo, hi)),
            forall|j: int| lo <= j < self.first_eligible(lo, hi) ==> !self.eligible(j),
        decreases hi - lo,
    {
        if lo < hi && !self.eligible(lo) {
            self.lemma_first_eligible(lo + 1, hi);
        }
    }

    /// Round-robin does not pass over a subscriber with credit: the chosen
    /// subscriber is eligible, none is chosen only where none is eligible,
    /// and every subscriber between the cursor and the chosen one, going
    /// round, is not eligible.
    pub proof fn lemma_chosen_is_fair(self)
        ensures
            match self.chosen() {
                Some(i) => {
                    &&& self.eligible(i)
                    &&& i >= self.start() ==> forall|j: int| self.start() <= j < i ==> !self.eligible(j)
                    &&& i < self.start() ==> forall|j: int|
                        (self.start() <= j < self.subscribers.len() || 0 <= j < i)
                            ==> !self.eligible(j)
                },
                None => forall|j: int| !self.eligible(j),
            },
    {
        let n = self.subscribers.len() as int;
        self.lemma_first_eligible(self.start(), n);
        self.lemma_first_eligible(0, self.start());
    }
}

/// A sequence without an entry that passes has an empty filter.
pub proof fn lemma_filter_none<T>(s: Seq<T>, pred: spec_fn(T) -> bool)
    requires
        forall|i: int| 0 <= i < s.len() ==> !pred(#[trigger] s[i]),
    ensures
        s.filter(pred).len() == 0,
    decreases s.len(),
{
    reveal(Seq::filter);
    if s.len() > 0 {
        assert forall|i: int| 0 <= i < s.drop_last().len() implies !pred(
            #[trigger] s.drop_last()[i],
        ) by {
            assert(s.drop_last()[i] == s[i]);
        }
        lemma_filter_none(s.drop_last(), pred);
        assert(!pred(s.last()));
    }
}

/// After the in-flight entries of a client were taken out, it holds none.
pub proof fn lemma_released(s: Seq<crate::message_queue::InFlightView>, client: ClientId)
    ensures
        picked(crate::message_queue::unpicked(s, Pick::Client(client)), Pick::Client(client)).len()
            == 0,
{
    let others = |e: crate::message_queue::InFlightView| !crate::message_queue::picks(
        Pick::Client(client),
        e,
    );
    let own = |e: crate::message_queue::InFlightView| crate::message_queue::picks(
        Pick::Client(client),
        e,
    );
    let rest = s.filter(others);
    assert forall|i: int| 0 <= i < rest.len() implies !own(#[trigger] rest[i]) by {
        s.lemma_filter_pred(others, i);
    }
    lemma_filter_none(rest, own);
}

} // verus!
