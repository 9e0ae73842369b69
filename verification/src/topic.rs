//! Topics: a named stream that fans every published message out to its
//! channels.

use crate::channel::{Channel, ChannelOp, ChannelStats, ChannelView, Delivery};
use crate::clock::now_millis;
use crate::disk_queue::{disk_view, DiskQueue, DiskState, DiskWrite};
use crate::errors::{invalid_with, NsqError};
use crate::message::{blank_message, message_size, Message, MessageId, MessageView};
use crate::message_queue::{
    empty_queue, inherited_queue, message_views, read_gave, write_views, ClientId, MessageQueue,
    QueueView,
};
use crate::text::str_equal;
use crate::validation::{valid_name, validate_topic_channel_name};
use vstd::prelude::*;
use vstd::string::*;
use vstd::utf8::encode_utf8;

verus! {

/// The counters of a topic.
#[derive(Debug, Clone, Copy, PartialEq, Eq, Structural)]
pub struct TopicStats {
    pub message_count: u64,
    pub channel_count: u64,
    pub depth: u64,
    pub backend_depth: u64,
    pub in_flight_count: u64,
    pub deferred_count: u64,
    pub requeue_count: u64,
    pub timeout_count: u64,
}

impl Default for TopicStats {
    fn default() -> (stats: TopicStats)
        ensures
            stats == (TopicStats {
                message_count: 0,
                channel_count: 0,
                depth: 0,
                backend_depth: 0,
                in_flight_count: 0,
                deferred_count: 0,
                requeue_count: 0,
                timeout_count: 0,
            }),
    {
        TopicStats {
            message_count: 0,
            channel_count: 0,
            depth: 0,
            backend_depth: 0,
            in_flight_count: 0,
            deferred_count: 0,
            requeue_count: 0,
            timeout_count: 0,
        }
    }
}

/// The index of the first channel called `name`, or the number of channels
/// where there is none.
pub open spec fn find_channel(channels: Seq<ChannelView>, name: Seq<char>) -> int
    decreases channels.len(),
{
    if channels.len() == 0 {
        0
    } else if channels[0].name == name {
        0
    } else {
        1 + find_channel(channels.drop_first(), name)
    }
}

/// `find_channel` is in range, points at a channel of that name where it is
/// inside, and no channel before it has the name.
pub proof fn lemma_find_channel(channels: Seq<ChannelView>, name: Seq<char>)
    ensures
        0 <= find_channel(channels, name) <= channels.len(),
        find_channel(channels, name) < channels.len() ==> channels[find_channel(
            channels,
            name,
        )].name == name,
        forall|k: int| 0 <= k < find_channel(channels, name) ==> channels[k].name != name,
    decreases channels.len(),
{
    if channels.len() > 0 && channels[0].name != name {
        let rest = channels.drop_first();
        lemma_find_channel(rest, name);
        assert forall|k: int| 0 <= k < find_channel(channels, name) implies channels[k].name
            != name by {
            if k > 0 {
                assert(channels[k] == rest[k - 1]);
            }
        }
    }
}

/// A position with no channel of the name before it, which holds one or is
/// the end, is `find_channel`.
pub proof fn lemma_find_channel_is(channels: Seq<ChannelView>, name: Seq<char>, at: int)
    requires
        0 <= at <= channels.len(),
        forall|k: int| 0 <= k < at ==> channels[k].name != name,
        at < channels.len() ==> channels[at].name == name,
    ensures
        find_channel(channels, name) == at,
{
    lemma_find_channel(channels, name);
}

/// The copy of `m` that channel `k` gets: the first channel gets the message
/// itself, channel `k` gets it under the identifier `ids[k - 1]`, and a
/// channel for which no identifier is given gets the message itself.
pub open spec fn copy_for(m: MessageView, k: int, ids: Seq<MessageId>) -> MessageView {
    if 1 <= k <= ids.len() {
        MessageView { id: ids[k - 1], ..m }
    } else {
        m
    }
}

/// Every message of `ms` takes at most `big` bytes on the wire.
pub open spec fn within(ms: Seq<MessageView>, big: nat) -> bool {
    forall|k: int| 0 <= k < ms.len() ==> message_size(#[trigger] ms[k]) <= big
}

/// The identifiers for the copies of message `k` of a batch; none where
/// `ids` does not reach that far.
pub open spec fn ids_of(ids: Seq<Seq<MessageId>>, k: int) -> Seq<MessageId> {
    if 0 <= k < ids.len() {
        ids[k]
    } else {
        Seq::empty()
    }
}

/// The rows of `ids`, each by its view.
pub open spec fn id_rows(ids: Seq<Vec<MessageId>>) -> Seq<Seq<MessageId>> {
    ids.map_values(|row: Vec<MessageId>| row@)
}

/// The sum of `f` over the channels.
pub open spec fn sum_over(channels: Seq<ChannelView>, f: spec_fn(ChannelView) -> nat) -> nat
    decreases channels.len(),
{
    if channels.len() == 0 {
        0
    } else {
        sum_over(channels.drop_last(), f) + f(channels.last())
    }
}

/// The sum of what the channels hold.
pub open spec fn total_held(channels: Seq<ChannelView>) -> nat {
    sum_over(channels, |c: ChannelView| c.held())
}

/// The sum of the messages in flight in the channels.
pub open spec fn total_in_flight(channels: Seq<ChannelView>) -> nat {
    sum_over(channels, |c: ChannelView| c.queue.in_flight.len())
}

/// The sum of the deferred messages of the channels.
pub open spec fn total_deferred(channels: Seq<ChannelView>) -> nat {
    sum_over(channels, |c: ChannelView| c.queue.deferred.len())
}

/// The sum of the records that the channels have on disk.
pub open spec fn total_backend(channels: Seq<ChannelView>) -> nat {
    sum_over(channels, |c: ChannelView| c.queue.backend_depth())
}

/// The sum of the messages that were handed back in the channels.
pub open spec fn total_requeued(channels: Seq<ChannelView>) -> nat {
    sum_over(channels, |c: ChannelView| c.queue.requeued as nat)
}

/// The sum of the messages that timed out in the channels.
pub open spec fn total_timed_out(channels: Seq<ChannelView>) -> nat {
    sum_over(channels, |c: ChannelView| c.queue.timed_out as nat)
}

/// `n` as a 64-bit counter: `u64::MAX` where it does not fit.
pub open spec fn clamp(n: nat) -> u64 {
    if n <= u64::MAX {
        n as u64
    } else {
        u64::MAX
    }
}

/// A topic as a mathematical value.
pub struct TopicView {
    pub name: Seq<char>,
    pub channels: Seq<ChannelView>,
    /// The messages published while the topic had no channel.
    pub backlog: QueueView,
    /// How many messages were published to the topic.
    pub message_count: u64,
    pub created_at: u64,
    pub paused: bool,
    /// How many new messages the memory of each channel holds.
    pub channel_limit: usize,
    /// The disk backing that each new channel starts with, if any.
    pub channel_disk: Option<DiskState>,
}

impl TopicView {
    /// The invariant of a topic: well-formed names, no two channels of one
    /// name, and no channel, nor the backlog, holds more messages than were
    /// put into it, which is no more than were published to the topic.
    pub open spec fn wf(self) -> bool {
        &&& valid_name(encode_utf8(self.name))
        &&& self.backlog.held() <= self.backlog.total_messages <= self.message_count
        &&& forall|i: int|
            0 <= i < self.channels.len() ==> {
                &&& (#[trigger] self.channels[i]).wf()
                &&& self.channels[i].balanced()
                &&& self.channels[i].queue.total_messages <= self.message_count
            }
        &&& forall|i: int, j: int|
            0 <= i < j < self.channels.len() ==> (#[trigger] self.channels[i]).name != (
            #[trigger] self.channels[j]).name
    }

    /// Whether the topic has a channel called `name`.
    pub open spec fn has_channel(self, name: Seq<char>) -> bool {
        find_channel(self.channels, name) < self.channels.len()
    }

    /// Whether the topic takes the new message `m`: the count of published
    /// messages can grow, and the backlog, or every channel where there are
    /// channels, takes it.
    pub open spec fn takes(self, m: MessageView) -> bool {
        &&& self.message_count < u64::MAX
        &&& if self.channels.len() == 0 {
            self.backlog.accepts(m)
        } else {
            forall|k: int| 0 <= k < self.channels.len() ==> (#[trigger] self.channels[k]).queue.accepts(m)
        }
    }

    /// Whether the topic has room for `n` more messages of at most `big`
    /// bytes on the wire each: the count of published messages can grow by
    /// `n`, and the backlog, or every channel where there are channels, has
    /// the room.
    pub open spec fn has_room(self, n: nat, big: nat) -> bool {
        &&& self.message_count + n <= u64::MAX
        &&& if self.channels.len() == 0 {
            self.backlog.has_room(n, big)
        } else {
            forall|k: int|
                0 <= k < self.channels.len() ==> (#[trigger] self.channels[k]).queue.has_room(n, big)
        }
    }

    /// Whether the topic takes the batch `ms` as a whole: it has room for as
    /// many messages as the batch holds, of the size of its largest.
    pub open spec fn takes_all(self, ms: Seq<MessageView>) -> bool {
        exists|big: nat| #[trigger] self.has_room(ms.len(), big) && within(ms, big)
    }

    /// The topic after the messages `ms` were published one after the other,
    /// message `k` with the identifiers `ids[k]` for its copies.
    pub open spec fn after_publish_each(self, ms: Seq<MessageView>, ids: Seq<Seq<MessageId>>)
        -> TopicView
        decreases ms.len(),
    {
        if ms.len() == 0 {
            self
        } else {
            self.after_publish_each(ms.drop_last(), ids).after_publish(
                ms.last(),
                ids_of(ids, ms.len() - 1),
            )
        }
    }

    /// The topic after the batch `ms` was published: every message of it
    /// where the topic takes the batch as a whole, and none otherwise.
    pub open spec fn after_publish_all(self, ms: Seq<MessageView>, ids: Seq<Seq<MessageId>>)
        -> TopicView {
        if self.takes_all(ms) {
            self.after_publish_each(ms, ids)
        } else {
            self
        }
    }

    /// The topic after `m` was published with the identifiers `ids` for its
    /// copies: without channels the message waits in the backlog, else every
    /// channel has its copy at its tail. Nothing changes where the topic
    /// does not take the message.
    pub open spec fn after_publish(self, m: MessageView, ids: Seq<MessageId>) -> TopicView {
        if !self.takes(m) {
            self
        } else if self.channels.len() == 0 {
            TopicView {
                backlog: self.backlog.after_put(m),
                message_count: (self.message_count + 1) as u64,
                ..self
            }
        } else {
            TopicView {
                channels: Seq::new(
                    self.channels.len(),
                    |k: int| self.channels[k].after_put(copy_for(m, k, ids)),
                ),
                message_count: (self.message_count + 1) as u64,
                ..self
            }
        }
    }

    /// The queue that a new channel starts with. The first channel of a
    /// topic takes over the backlog: its disk backing, with the records
    /// that are still to be written to it, and its pending messages. Any
    /// other channel starts empty, with an empty backing.
    pub open spec fn new_queue(self) -> QueueView {
        if self.channels.len() == 0 {
            inherited_queue(
                self.channel_limit,
                self.backlog.disk,
                self.backlog.spill,
            ).after_adopt_all(self.backlog.pending)
        } else {
            empty_queue(
                self.channel_limit,
                match self.channel_disk {
                    Some(d) => Some(d.fresh()),
                    None => None,
                },
            )
        }
    }

    /// The channel that `add_channel(name)` makes at `now`: not paused,
    /// without subscribers, and holding the backlog of the topic where it is
    /// the first channel.
    pub open spec fn new_channel(self, name: Seq<char>, now: u64) -> ChannelView {
        ChannelView {
            name,
            topic_name: self.name,
            created_at: now,
            paused: false,
            queue: self.new_queue(),
            subscribers: Seq::empty(),
            cursor: 0,
        }
    }

    /// Whether `add_channel(name)` adds a channel: the name is well-formed
    /// and no channel has it.
    pub open spec fn can_add(self, name: Seq<char>) -> bool {
        valid_name(encode_utf8(name)) && !self.has_channel(name)
    }

    /// The topic after `add_channel(name)` at `now`. The first channel takes
    /// the backlog over, in memory and on disk.
    pub open spec fn after_add_channel(self, name: Seq<char>, now: u64) -> TopicView {
        if !self.can_add(name) {
            self
        } else {
            TopicView {
                channels: self.channels.push(self.new_channel(name, now)),
                backlog: if self.channels.len() == 0 {
                    QueueView { pending: Seq::empty(), ..self.backlog.after_hand_over() }
                } else {
                    self.backlog
                },
                ..self
            }
        }
    }

    /// Whether a channel called `name` that was found on disk can join the
    /// topic: the name is well-formed, no channel has it, and no backlog
    /// waits for the first channel.
    pub open spec fn can_restore(self, name: Seq<char>) -> bool {
        self.can_add(name) && (self.channels.len() > 0 || self.backlog.held() == 0)
    }

    /// The channel called `name` as it is found on disk at `now`: nothing in
    /// memory, and what waits on `disk` counted as accepted.
    pub open spec fn restored_channel(self, name: Seq<char>, disk: DiskState, now: u64)
        -> ChannelView {
        ChannelView {
            name,
            topic_name: self.name,
            created_at: now,
            paused: false,
            queue: empty_queue(self.channel_limit, Some(disk)),
            subscribers: Seq::empty(),
            cursor: 0,
        }
    }

    /// The topic after the channel called `name` was found on disk with the
    /// backing `disk` at `now`. The topic counts at least as many messages
    /// as wait there.
    pub open spec fn after_restore_channel(self, name: Seq<char>, disk: DiskState, now: u64)
        -> TopicView {
        if !self.can_restore(name) {
            self
        } else {
            TopicView {
                channels: self.channels.push(self.restored_channel(name, disk, now)),
                message_count: if disk.depth > self.message_count {
                    disk.depth
                } else {
                    self.message_count
                },
                ..self
            }
        }
    }

    /// The topic after the channel called `name` was removed.
    pub open spec fn after_remove_channel(self, name: Seq<char>) -> TopicView {
        if self.has_channel(name) {
            TopicView { channels: self.channels.remove(find_channel(self.channels, name)), ..self }
        } else {
            self
        }
    }

    /// Whether the topic takes the new message `m` for deferred delivery:
    /// the counts of published messages can grow; without channels the
    /// backlog must take the message.
    pub open spec fn takes_deferred(self, m: MessageView) -> bool {
        &&& self.message_count < u64::MAX
        &&& if self.channels.len() == 0 {
            self.backlog.accepts(m)
        } else {
            forall|k: int|
                0 <= k < self.channels.len() ==> (#[trigger] self.channels[k]).queue.countable()
        }
    }

    /// The topic after `m` was published for delivery at `ready_at`: every
    /// channel has its copy among its deferred messages. Without channels
    /// the message waits in the backlog, and its delay is lost.
    pub open spec fn after_publish_deferred(
        self,
        m: MessageView,
        ids: Seq<MessageId>,
        ready_at: u64,
    ) -> TopicView {
        if !self.takes_deferred(m) {
            self
        } else if self.channels.len() == 0 {
            TopicView {
                backlog: self.backlog.after_put(m),
                message_count: (self.message_count + 1) as u64,
                ..self
            }
        } else {
            TopicView {
                channels: Seq::new(
                    self.channels.len(),
                    |k: int|
                        ChannelView {
                            queue: self.channels[k].queue.after_put_deferred(
                                copy_for(m, k, ids),
                                ready_at,
                            ),
                            ..self.channels[k]
                        },
                ),
                message_count: (self.message_count + 1) as u64,
                ..self
            }
        }
    }

    /// The topic after the records that channel `at` wants on disk were
    /// handed over.
    pub open spec fn after_take_writes(self, at: int) -> TopicView {
        let c = self.channels[at];
        TopicView {
            channels: self.channels.update(
                at,
                ChannelView { queue: QueueView { spill: Seq::empty(), ..c.queue }, ..c },
            ),
            ..self
        }
    }

    /// The topic after channel `at` gave up records that were planned for
    /// disk.
    pub open spec fn after_give_up(self, at: int, file_num: u64, offset: u64, lost: u64)
        -> TopicView {
        let c = self.channels[at];
        TopicView {
            channels: self.channels.update(
                at,
                ChannelView { queue: c.queue.after_give_up(file_num, offset, lost), ..c },
            ),
            ..self
        }
    }

    /// The topic after channel `at` read the next record of its disk backing
    /// out of `segment`.
    pub open spec fn after_read_disk(self, at: int, segment: Seq<u8>) -> TopicView {
        let c = self.channels[at];
        TopicView {
            channels: self.channels.update(
                at,
                ChannelView { queue: c.queue.after_read_disk(segment), ..c },
            ),
            ..self
        }
    }

    /// The topic after `op` on channel `at` at `now`.
    pub open spec fn after_op(self, at: int, op: ChannelOp, now: u64) -> TopicView {
        TopicView {
            channels: self.channels.update(at, self.channels[at].after_op(op, now, self.paused)),
            ..self
        }
    }

    /// The topic after the deferred messages of every channel that are ready
    /// at `now` became pending.
    pub open spec fn after_process_deferred(self, now: u64) -> TopicView {
        TopicView {
            channels: self.channels.map_values(|c: ChannelView| c.after_process_deferred(now)),
            ..self
        }
    }

    /// The topic after the in-flight messages of every channel that have
    /// timed out at `now` became pending again.
    pub open spec fn after_cleanup(self, now: u64) -> TopicView {
        TopicView { channels: self.channels.map_values(|c: ChannelView| c.after_cleanup(now)), ..self }
    }

    /// The topic after `client` left every channel.
    pub open spec fn after_remove_client(self, client: ClientId) -> TopicView {
        TopicView {
            channels: self.channels.map_values(|c: ChannelView| c.after_remove_client(client)),
            ..self
        }
    }

    /// The topic after it was paused.
    pub open spec fn after_pause(self) -> TopicView {
        TopicView { paused: true, ..self }
    }

    /// The topic after it was unpaused.
    pub open spec fn after_unpause(self) -> TopicView {
        TopicView { paused: false, ..self }
    }

    /// The topic after it was deleted: paused, without channels and without
    /// backlog.
    pub open spec fn after_delete(self) -> TopicView {
        TopicView {
            channels: Seq::empty(),
            backlog: self.backlog.after_clear(),
            paused: true,
            ..self
        }
    }

    /// The counters of the topic.
    pub open spec fn stats(self) -> TopicStats {
        TopicStats {
            message_count: self.message_count,
            channel_count: self.channels.len() as u64,
            depth: self.backlog.pending.len() as u64,
            backend_depth: clamp(self.backlog.backend_depth() + total_backend(self.channels)),
            in_flight_count: clamp(total_in_flight(self.channels)),
            deferred_count: clamp(total_deferred(self.channels)),
            requeue_count: clamp(total_requeued(self.channels)),
            timeout_count: clamp(total_timed_out(self.channels)),
        }
    }
}

/// `client` holds no message in flight in any of the channels.
pub open spec fn holds_nothing(channels: Seq<ChannelView>, client: ClientId) -> bool {
    forall|i: int| 0 <= i < channels.len() ==> (#[trigger] channels[i]).in_flight_of(client) == 0
}

/// A sweep over the channels of a topic.
#[derive(Debug, Clone, Copy, PartialEq, Eq, Structural)]
pub enum Sweep {
    /// Make the deferred messages that are ready pending.
    Deferred,
    /// Make the in-flight messages that timed out pending again.
    Timeouts,
    /// Remove a client and make what it held pending again.
    Client,
}

/// A channel after the sweep `what` at `now`, for the client `client`.
pub open spec fn swept(c: ChannelView, what: Sweep, now: u64, client: ClientId) -> ChannelView {
    match what {
        Sweep::Deferred => c.after_process_deferred(now),
        Sweep::Timeouts => c.after_cleanup(now),
        Sweep::Client => c.after_remove_client(client),
    }
}

/// The channels of a topic by their views.
pub open spec fn channel_views(channels: Seq<Channel>) -> Seq<ChannelView> {
    channels.map_values(|c: Channel| c@)
}

/// A topic.
#[derive(Debug)]
pub struct Topic {
    name: String,
    channels: Vec<Channel>,
    message_queue: MessageQueue,
    message_count: u64,
    created_at: u64,
    paused: bool,
    max_memory_size: usize,
    channel_disk: Option<DiskQueue>,
}

impl View for Topic {
    type V = TopicView;

    closed spec fn view(&self) -> TopicView {
        TopicView {
            name: self.name@,
            channels: channel_views(self.channels@),
            backlog: self.message_queue@,
            message_count: self.message_count,
            created_at: self.created_at,
            paused: self.paused,
            channel_limit: self.max_memory_size,
            channel_disk: match self.channel_disk {
                Some(d) => Some(d@),
                None => None,
            },
        }
    }
}

/// Publishing keeps the name of a topic.
pub proof fn lemma_publish_keeps_name(t: TopicView, ms: Seq<MessageView>, ids: Seq<Seq<MessageId>>)
    ensures
        t.after_publish_each(ms, ids).name == t.name,
        t.after_publish_all(ms, ids).name == t.name,
    decreases ms.len(),
{
    if ms.len() > 0 {
        lemma_publish_keeps_name(t, ms.drop_last(), ids);
    }
}

/// Room for messages of some size is room for smaller ones.
pub proof fn lemma_room_shrinks(t: TopicView, n: nat, big: nat, small: nat)
    requires
        t.has_room(n, big),
        small <= big,
    ensures
        t.has_room(n, small),
{
    assert forall|k: int| 0 <= k < t.channels.len() implies (#[trigger] t.channels[k]).queue.has_room(
        n,
        small,
    ) by {
        assert(t.channels[k].queue.has_room(n, big));
    }
}

/// A topic with room for `n` messages takes one of them and then has room
/// for the rest.
pub proof fn lemma_topic_room(t: TopicView, n: nat, big: nat, m: MessageView, ids: Seq<MessageId>)
    requires
        t.has_room(n, big),
        n >= 1,
        message_size(m) <= big,
    ensures
        t.takes(m),
        t.after_publish(m, ids).has_room((n - 1) as nat, big),
{
    let rest = (n - 1) as nat;
    if t.channels.len() == 0 {
        t.backlog.lemma_room(n, big, m);
    } else {
        assert forall|k: int| 0 <= k < t.channels.len() implies (
        #[trigger] t.channels[k]).queue.accepts(m) by {
            t.channels[k].queue.lemma_room(n, big, m);
        }
        assert(t.takes(m));
        let after = t.after_publish(m, ids);
        assert(after.channels.len() == t.channels.len());
        assert forall|k: int| 0 <= k < after.channels.len() implies (
        #[trigger] after.channels[k]).queue.has_room(rest, big) by {
            let c = t.channels[k];
            assert(c.queue.has_room(n, big));
            c.queue.lemma_room(n, big, copy_for(m, k, ids));
            assert(after.channels[k] == c.after_put(copy_for(m, k, ids)));
        }
    }
}

/// Pausing a topic twice is pausing it once, and unpausing a topic that was
/// running when it was paused gives the topic back as it was.
pub proof fn lemma_pause_laws(t: TopicView)
    ensures
        t.after_pause().after_pause() == t.after_pause(),
        t.after_pause().paused,
        !t.paused ==> t.after_pause().after_unpause() == t,
        t.paused ==> t.after_pause() == t,
        t.wf() ==> t.after_pause().wf() && t.after_unpause().wf(),
{
}

/// The topic that `new_at(name, limit, disk, now)` makes, where the name is
/// well-formed.
pub open spec fn new_topic(name: Seq<char>, limit: usize, disk: Option<DiskState>, now: u64)
    -> TopicView {
    let backlog = empty_queue(limit, disk);
    TopicView {
        name,
        channels: Seq::empty(),
        backlog,
        message_count: backlog.total_messages,
        created_at: now,
        paused: false,
        channel_limit: limit,
        channel_disk: match disk {
            Some(d) => Some(d.fresh()),
            None => None,
        },
    }
}

/// No topic holds more than it was given: the channels of a well-formed
/// topic together hold at most as many messages as were published to it,
/// once for each channel. A topic with at most one channel holds at most
/// what was published.
pub proof fn lemma_topic_holds_what_was_published(t: TopicView)
    requires
        t.wf(),
    ensures
        total_held(t.channels) <= t.channels.len() * t.message_count,
        t.channels.len() <= 1 ==> t.message_count >= total_held(t.channels),
        forall|i: int|
            0 <= i < t.channels.len() ==> t.message_count >= (#[trigger] t.channels[i]).held(),
{
    lemma_total_held_bound(t.channels, t.message_count);
    assert(t.channels.len() <= 1 ==> t.channels.len() * t.message_count <= t.message_count)
        by (nonlinear_arith);
}

proof fn lemma_total_held_bound(channels: Seq<ChannelView>, bound: u64)
    requires
        forall|i: int| 0 <= i < channels.len() ==> (#[trigger] channels[i]).held() <= bound,
    ensures
        total_held(channels) <= channels.len() * bound,
    decreases channels.len(),
{
    if channels.len() > 0 {
        assert(channels.last().held() <= bound);
        let front = channels.drop_last();
        assert forall|i: int| 0 <= i < front.len() implies (#[trigger] front[i]).held()
            <= bound by {
            assert(front[i] == channels[i]);
        }
        lemma_total_held_bound(front, bound);
        assert(front.len() * bound + bound == channels.len() * bound) by (nonlinear_arith)
            requires
                front.len() + 1 == channels.len(),
        ;
    }
}

/// The size on the wire of the largest of `messages`; zero where there is
/// none.
fn largest(messages: &Vec<Message>) -> (big: usize)
    ensures
        within(message_views(messages@), big as nat),
        big == 0 || exists|j: int|
            0 <= j < messages@.len() && message_size(#[trigger] message_views(messages@)[j]) == big,
{
    let ghost ms = message_views(messages@);
    let n = messages.len();
    let mut big: usize = 0;
    let ghost mut at: int = 0;
    let mut k: usize = 0;
    while k < n
        invariant
            k <= n,
            n == messages@.len(),
            ms == message_views(messages@),
            forall|j: int| 0 <= j < k ==> message_size(#[trigger] ms[j]) <= big,
            big == 0 || (0 <= at < k && message_size(ms[at]) == big),
        decreases n - k,
    {
        let size = messages[k].size();
        proof {
            assert(ms[k as int] == messages@[k as int]@);
        }
        if size > big {
            big = size;
            proof {
                at = k as int;
            }
        }
        k = k + 1;
    }
    proof {
        if big > 0 {
            assert(message_size(ms[at]) == big);
        }
    }
    big
}

/// Puts `copy` into channel `k`.
fn put_into(channels: &mut Vec<Channel>, k: usize, copy: Message)
    requires
        k < old(channels)@.len(),
    ensures
        final(channels)@.len() == old(channels)@.len(),
        channel_views(final(channels)@) == channel_views(old(channels)@).update(
            k as int,
            old(channels)@[k as int]@.after_put(copy@),
        ),
{
    let ghost before = channel_views(channels@);
    let _ = channels[k].distribute_message(copy);
    proof {
        assert(channel_views(channels@) =~= before.update(
            k as int,
            before[k as int].after_put(copy@),
        ));
    }
}

/// Sweeps channel `k`.
fn sweep_one(channels: &mut Vec<Channel>, k: usize, what: Sweep, now: u64, client: ClientId)
    requires
        k < old(channels)@.len(),
    ensures
        final(channels)@.len() == old(channels)@.len(),
        channel_views(final(channels)@) == channel_views(old(channels)@).update(
            k as int,
            swept(old(channels)@[k as int]@, what, now, client),
        ),
{
    let ghost before = channel_views(channels@);
    match what {
        Sweep::Deferred => {
            let _ = channels[k].process_deferred_at(now);
        },
        Sweep::Timeouts => {
            let _ = channels[k].cleanup_timeouts_at(now);
        },
        Sweep::Client => {
            channels[k].remove_client(client);
        },
    }
    proof {
        assert(channel_views(channels@) =~= before.update(
            k as int,
            swept(before[k as int], what, now, client),
        ));
    }
}

/// Hands over the records that channel `k` wants on disk.
fn take_writes_of(channels: &mut Vec<Channel>, k: usize) -> (writes: Vec<DiskWrite>)
    requires
        k < old(channels)@.len(),
    ensures
        final(channels)@.len() == old(channels)@.len(),
        write_views(writes@) == old(channels)@[k as int]@.queue.spill,
        channel_views(final(channels)@) == channel_views(old(channels)@).update(
            k as int,
            ChannelView {
                queue: QueueView { spill: Seq::empty(), ..old(channels)@[k as int]@.queue },
                ..old(channels)@[k as int]@
            },
        ),
{
    let ghost before = channel_views(channels@);
    let writes = channels[k].take_disk_writes();
    proof {
        assert(channel_views(channels@) =~= before.update(
            k as int,
            ChannelView {
                queue: QueueView { spill: Seq::empty(), ..before[k as int].queue },
                ..before[k as int]
            },
        ));
    }
    writes
}

/// Lets channel `k` give up records that were planned for disk.
fn give_up_of(channels: &mut Vec<Channel>, k: usize, file_num: u64, offset: u64, lost: u64) -> (done:
    bool)
    requires
        k < old(channels)@.len(),
    ensures
        final(channels)@.len() == old(channels)@.len(),
        done == old(channels)@[k as int]@.queue.can_give_up(file_num, offset, lost),
        channel_views(final(channels)@) == channel_views(old(channels)@).update(
            k as int,
            ChannelView {
                queue: old(channels)@[k as int]@.queue.after_give_up(file_num, offset, lost),
                ..old(channels)@[k as int]@
            },
        ),
{
    let ghost before = channel_views(channels@);
    let done = channels[k].give_up_disk_writes(file_num, offset, lost);
    proof {
        assert(channel_views(channels@) =~= before.update(
            k as int,
            ChannelView {
                queue: before[k as int].queue.after_give_up(file_num, offset, lost),
                ..before[k as int]
            },
        ));
    }
    done
}

/// Lets channel `k` read the next record of its disk backing.
fn read_disk_of(channels: &mut Vec<Channel>, k: usize, segment: &[u8]) -> (res: Result<
    bool,
    NsqError,
>)
    requires
        k < old(channels)@.len(),
    ensures
        final(channels)@.len() == old(channels)@.len(),
        read_gave(res, old(channels)@[k as int]@.queue.read_back(segment@)),
        channel_views(final(channels)@) == channel_views(old(channels)@).update(
            k as int,
            ChannelView {
                queue: old(channels)@[k as int]@.queue.after_read_disk(segment@),
                ..old(channels)@[k as int]@
            },
        ),
{
    let ghost before = channel_views(channels@);
    let res = channels[k].read_disk(segment);
    proof {
        assert(channel_views(channels@) =~= before.update(
            k as int,
            ChannelView {
                queue: before[k as int].queue.after_read_disk(segment@),
                ..before[k as int]
            },
        ));
    }
    res
}

/// Applies `op` to channel `k`.
fn apply_one(channels: &mut Vec<Channel>, k: usize, op: ChannelOp, now: u64, paused: bool) -> (res:
    Result<Option<Delivery>, NsqError>)
    requires
        k < old(channels)@.len(),
    ensures
        final(channels)@.len() == old(channels)@.len(),
        channel_views(final(channels)@) == channel_views(old(channels)@).update(
            k as int,
            old(channels)@[k as int]@.after_op(op, now, paused),
        ),
        res is Ok <==> old(channels)@[k as int]@.admits(op),
        res is Err ==> res->Err_0 is Queue,
        res is Ok ==> (res->Ok_0 is Some <==> old(channels)@[k as int]@.delivers(op, paused)),
        res is Ok && res->Ok_0 is Some ==> {
            let c = old(channels)@[k as int]@;
            &&& res->Ok_0->Some_0.client_id == c.subscribers[c.chosen()->Some_0].client_id
            &&& res->Ok_0->Some_0.message@ == c.queue.pending[0]
        },
{
    let ghost before = channel_views(channels@);
    let res = channels[k].apply(op, now, paused);
    proof {
        assert(channel_views(channels@) =~= before.update(
            k as int,
            before[k as int].after_op(op, now, paused),
        ));
    }
    res
}

/// Puts a copy of `message` into every channel.
fn fan_out(channels: &mut Vec<Channel>, message: &Message, ids: &Vec<MessageId>)
    ensures
        final(channels)@.len() == old(channels)@.len(),
        channel_views(final(channels)@) == Seq::new(
            old(channels)@.len(),
            |k: int| channel_views(old(channels)@)[k].after_put(copy_for(message@, k, ids@)),
        ),
{
    let ghost before = channel_views(channels@);
    let n = channels.len();
    let mut k: usize = 0;
    while k < n
        invariant
            k <= n,
            n == channels@.len(),
            n == before.len(),
            forall|j: int|
                0 <= j < k ==> #[trigger] channel_views(channels@)[j] == before[j].after_put(
                    copy_for(message@, j, ids@),
                ),
            forall|j: int| k <= j < n ==> #[trigger] channel_views(channels@)[j] == before[j],
        decreases n - k,
    {
        let mut copy = message.clone();
        if 1 <= k && k <= ids.len() {
            copy.id = ids[k - 1];
        }
        proof {
            assert(copy@ == copy_for(message@, k as int, ids@));
            assert(channel_views(channels@)[k as int] == before[k as int]);
        }
        put_into(channels, k, copy);
        k = k + 1;
    }
    proof {
        assert(channel_views(channels@) =~= Seq::new(
            before.len(),
            |k: int| before[k].after_put(copy_for(message@, k, ids@)),
        ));
    }
}

/// Puts a copy of `message` among the deferred messages of every channel.
fn fan_out_deferred(
    channels: &mut Vec<Channel>,
    message: &Message,
    ids: &Vec<MessageId>,
    ready_at: u64,
)
    ensures
        final(channels)@.len() == old(channels)@.len(),
        channel_views(final(channels)@) == Seq::new(
            old(channels)@.len(),
            |k: int|
                ChannelView {
                    queue: channel_views(old(channels)@)[k].queue.after_put_deferred(
                        copy_for(message@, k, ids@),
                        ready_at,
                    ),
                    ..channel_views(old(channels)@)[k]
                },
        ),
{
    let ghost before = channel_views(channels@);
    let n = channels.len();
    let mut k: usize = 0;
    while k < n
        invariant
            k <= n,
            n == channels@.len(),
            n == before.len(),
            forall|j: int|
                0 <= j < k ==> #[trigger] channel_views(channels@)[j] == (ChannelView {
                    queue: before[j].queue.after_put_deferred(
                        copy_for(message@, j, ids@),
                        ready_at,
                    ),
                    ..before[j]
                }),
            forall|j: int| k <= j < n ==> #[trigger] channel_views(channels@)[j] == before[j],
        decreases n - k,
    {
        let mut copy = message.clone();
        if 1 <= k && k <= ids.len() {
            copy.id = ids[k - 1];
        }
        proof {
            assert(copy@ == copy_for(message@, k as int, ids@));
            assert(channel_views(channels@)[k as int] == before[k as int]);
        }
        defer_into(channels, k, copy, ready_at);
        k = k + 1;
    }
    proof {
        assert(channel_views(channels@) =~= Seq::new(
            before.len(),
            |k: int|
                ChannelView {
                    queue: before[k].queue.after_put_deferred(
                        copy_for(message@, k, ids@),
                        ready_at,
                    ),
                    ..before[k]
                },
        ));
    }
}

/// Puts `copy` among the deferred messages of channel `k`.
fn defer_into(channels: &mut Vec<Channel>, k: usize, copy: Message, ready_at: u64)
    requires
        k < old(channels)@.len(),
    ensures
        final(channels)@.len() == old(channels)@.len(),
        channel_views(final(channels)@) == channel_views(old(channels)@).update(
            k as int,
            ChannelView {
                queue: old(channels)@[k as int]@.queue.after_put_deferred(copy@, ready_at),
                ..old(channels)@[k as int]@
            },
        ),
{
    let ghost before = channel_views(channels@);
    let _ = channels[k].distribute_deferred_at(copy, ready_at);
    proof {
        assert(channel_views(channels@) =~= before.update(
            k as int,
            ChannelView {
                queue: before[k as int].queue.after_put_deferred(copy@, ready_at),
                ..before[k as int]
            },
        ));
    }
}

/// Whether the count of every channel can still grow.
fn all_countable(channels: &Vec<Channel>) -> (yes: bool)
    ensures
        yes == forall|k: int|
            0 <= k < channels@.len() ==> (#[trigger] channel_views(channels@)[k]).queue.countable(),
{
    let n = channels.len();
    let mut k: usize = 0;
    while k < n
        invariant
            k <= n,
            n == channels@.len(),
            forall|j: int| 0 <= j < k ==> (#[trigger] channel_views(channels@)[j]).queue.countable(),
        decreases n - k,
    {
        if channels[k].stats().message_count == u64::MAX {
            assert(!channel_views(channels@)[k as int].queue.countable());
            return false;
        }
        k = k + 1;
    }
    true
}

/// Sweeps every channel.
fn sweep_all(channels: &mut Vec<Channel>, what: Sweep, now: u64, client: ClientId)
    ensures
        final(channels)@.len() == old(channels)@.len(),
        channel_views(final(channels)@) == channel_views(old(channels)@).map_values(
            |c: ChannelView| swept(c, what, now, client),
        ),
{
    let ghost before = channel_views(channels@);
    let n = channels.len();
    let mut k: usize = 0;
    while k < n
        invariant
            k <= n,
            n == channels@.len(),
            n == before.len(),
            forall|j: int|
                0 <= j < k ==> #[trigger] channel_views(channels@)[j] == swept(
                    before[j],
                    what,
                    now,
                    client,
                ),
            forall|j: int| k <= j < n ==> #[trigger] channel_views(channels@)[j] == before[j],
        decreases n - k,
    {
        proof {
            assert(channel_views(channels@)[k as int] == before[k as int]);
        }
        sweep_one(channels, k, what, now, client);
        k = k + 1;
    }
    proof {
        assert(channel_views(channels@) =~= before.map_values(
            |c: ChannelView| swept(c, what, now, client),
        ));
    }
}

/// Whether every channel takes `message`.
fn all_accept(channels: &Vec<Channel>, message: &Message) -> (yes: bool)
    ensures
        yes == forall|k: int|
            0 <= k < channels@.len() ==> (#[trigger] channel_views(channels@)[k]).queue.accepts(
                message@,
            ),
{
    let n = channels.len();
    let mut k: usize = 0;
    while k < n
        invariant
            k <= n,
            n == channels@.len(),
            forall|j: int|
                0 <= j < k ==> (#[trigger] channel_views(channels@)[j]).queue.accepts(message@),
        decreases n - k,
    {
        if !channels[k].accepts(message) {
            assert(!channel_views(channels@)[k as int].queue.accepts(message@));
            return false;
        }
        k = k + 1;
    }
    true
}

impl Topic {
    /// A new topic `name`, created now, whose queues hold up to
    /// `max_memory_size` new messages in memory; with `disk_queue`, the
    /// overflow goes to disk. A name that is not well-formed is a validation
    /// error.
    pub fn new(name: String, max_memory_size: usize, disk_queue: Option<DiskQueue>) -> (res:
        Result<Topic, NsqError>)
        ensures
            res is Ok <==> valid_name(encode_utf8(name@)),
            res is Err ==> res->Err_0 is Validation,
            res is Ok ==> res->Ok_0@.wf() && exists|now: u64|
                res->Ok_0@ == #[trigger] new_topic(
                    name@,
                    max_memory_size,
                    disk_view(disk_queue),
                    now,
                ),
    {
        let now = now_millis();
        let ghost disk = disk_view(disk_queue);
        let res = Topic::new_at(name, max_memory_size, disk_queue, now);
        proof {
            if res is Ok {
                assert(res->Ok_0@ == new_topic(name@, max_memory_size, disk, now));
            }
        }
        res
    }

    /// A new topic `name`, created at `now`.
    pub fn new_at(name: String, max_memory_size: usize, disk_queue: Option<DiskQueue>, now: u64)
        -> (res: Result<Topic, NsqError>)
        ensures
            res is Ok <==> valid_name(encode_utf8(name@)),
            res is Err ==> res->Err_0 is Validation,
            res is Ok ==> res->Ok_0@.wf() && res->Ok_0@ == new_topic(
                name@,
                max_memory_size,
                disk_view(disk_queue),
                now,
            ),
    {
        match validate_topic_channel_name(name.as_str()) {
            Ok(()) => {},
            Err(e) => {
                return Err(e);
            },
        }
        let channel_disk = match &disk_queue {
            Some(d) => Some(d.fresh()),
            None => None,
        };
        let message_queue = MessageQueue::new(max_memory_size, disk_queue);
        let waiting = message_queue.backend_depth();
        proof {
            assert(channel_views(Seq::<Channel>::empty()) =~= Seq::<ChannelView>::empty());
        }
        Ok(
            Topic {
                name,
                channels: Vec::new(),
                message_queue,
                message_count: waiting,
                created_at: now,
                paused: false,
                max_memory_size,
                channel_disk,
            },
        )
    }

    /// The name of the topic.
    pub fn name(&self) -> (name: &String)
        ensures
            name@ == self@.name,
    {
        &self.name
    }

    /// When the topic was created.
    pub fn created_at(&self) -> (t: u64)
        ensures
            t == self@.created_at,
    {
        self.created_at
    }

    /// The index of the channel called `channel_name`.
    pub fn channel_index(&self, channel_name: &str) -> (res: Option<usize>)
        ensures
            match res {
                Some(i) => i == find_channel(self@.channels, channel_name@) && self@.has_channel(
                    channel_name@,
                ),
                None => !self@.has_channel(channel_name@),
            },
    {
        let n = self.channels.len();
        let mut i: usize = 0;
        while i < n
            invariant
                i <= n,
                n == self.channels@.len(),
                forall|k: int| 0 <= k < i ==> self@.channels[k].name != channel_name@,
            decreases n - i,
        {
            if str_equal(self.channels[i].name().as_str(), channel_name) {
                proof {
                    lemma_find_channel_is(self@.channels, channel_name@, i as int);
                }
                return Some(i);
            }
            i = i + 1;
        }
        proof {
            lemma_find_channel_is(self@.channels, channel_name@, n as int);
        }
        None
    }

    /// The channel called `channel_name`, if the topic has it.
    pub fn get_channel(&self, channel_name: &str) -> (res: Option<&Channel>)
        ensures
            res is Some <==> self@.has_channel(channel_name@),
            res is Some ==> res->Some_0@ == self@.channels[find_channel(
                self@.channels,
                channel_name@,
            )],
    {
        match self.channel_index(channel_name) {
            Some(i) => Some(&self.channels[i]),
            None => None,
        }
    }

    /// The channels of the topic, in the order in which they were added.
    pub fn get_channels(&self) -> (channels: &Vec<Channel>)
        ensures
            channel_views(channels@) == self@.channels,
    {
        &self.channels
    }

    /// Adds the channel `channel_name`.
    ///
    /// A name that is not well-formed and the name of a channel that exists
    /// are validation errors and change nothing. The first channel of a topic
    /// takes over the messages that were published before it existed.
    pub fn add_channel(&mut self, channel_name: String) -> (res: Result<(), NsqError>)
        requires
            old(self)@.wf(),
        ensures
            final(self)@.wf(),
            res is Ok <==> old(self)@.can_add(channel_name@),
            res is Err ==> res->Err_0 is Validation,
            old(self)@.has_channel(channel_name@) && valid_name(encode_utf8(channel_name@))
                ==> invalid_with(res, "Channel already exists"@),
            exists|now: u64| final(self)@ == old(self)@.after_add_channel(channel_name@, now),
    {
        let now = now_millis();
        let res = self.add_channel_at(channel_name, now);
        proof {
            assert(final(self)@ == old(self)@.after_add_channel(channel_name@, now));
        }
        res
    }

    /// Adds the channel `channel_name`, created at `now`.
    pub fn add_channel_at(&mut self, channel_name: String, now: u64) -> (res: Result<(), NsqError>)
        requires
            old(self)@.wf(),
        ensures
            final(self)@.wf(),
            final(self)@ == old(self)@.after_add_channel(channel_name@, now),
            res is Ok <==> old(self)@.can_add(channel_name@),
            res is Err ==> res->Err_0 is Validation,
            old(self)@.has_channel(channel_name@) && valid_name(encode_utf8(channel_name@))
                ==> invalid_with(res, "Channel already exists"@),
    {
        match validate_topic_channel_name(channel_name.as_str()) {
            Ok(()) => {},
            Err(e) => {
                return Err(e);
            },
        }
        if self.channel_index(channel_name.as_str()).is_some() {
            return Err(NsqError::Validation(String::from_str("Channel already exists")));
        }
        let queue = if self.channels.len() == 0 {
            let (disk, writes) = self.message_queue.hand_over_backing();
            MessageQueue::inheriting(self.max_memory_size, disk, writes)
        } else {
            let disk = match &self.channel_disk {
                Some(d) => Some(d.fresh()),
                None => None,
            };
            MessageQueue::new(self.max_memory_size, disk)
        };
        let ghost fresh = queue@;
        let ghost target = old(self)@.new_channel(channel_name@, now);
        let mut channel = match Channel::new_at(channel_name, self.name.clone(), queue, now) {
            Ok(channel) => channel,
            Err(e) => {
                return Err(e);
            },
        };
        let ghost backlog = old(self)@.backlog.pending;
        let waiting = self.message_queue.depth();
        proof {
            assert(channel@.subscribers =~= Seq::<crate::channel::Subscriber>::empty());
        }
        if self.channels.len() == 0 {
            let ghost mut k: int = 0;
            proof {
                assert(backlog.take(0) =~= Seq::<MessageView>::empty());
                assert(backlog.skip(0) =~= backlog);
                fresh.lemma_adopt_all(backlog.take(0));
            }
            while self.message_queue.depth() > 0
                invariant
                    0 <= k <= backlog.len(),
                    backlog.len() <= usize::MAX,
                    fresh.total_messages + backlog.len() <= u64::MAX,
                    fresh == inherited_queue(
                        old(self)@.channel_limit,
                        old(self)@.backlog.disk,
                        old(self)@.backlog.spill,
                    ),
                    self.message_queue@ == (QueueView {
                        pending: backlog.skip(k),
                        ..old(self)@.backlog.after_hand_over()
                    }),
                    channel@ == (ChannelView {
                        queue: fresh.after_adopt_all(backlog.take(k)),
                        ..target
                    }),
                    self.name == old(self).name,
                    self.channels == old(self).channels,
                    self.message_count == old(self).message_count,
                    self.created_at == old(self).created_at,
                    self.paused == old(self).paused,
                    self.max_memory_size == old(self).max_memory_size,
                    self.channel_disk == old(self).channel_disk,
                decreases backlog.len() - k,
            {
                proof {
                    fresh.lemma_adopt_all(backlog.take(k));
                    assert(backlog.take(k + 1).drop_last() =~= backlog.take(k));
                    assert(backlog.skip(k).drop_first() =~= backlog.skip(k + 1));
                }
                match self.message_queue.get() {
                    Ok(Some(m)) => {
                        let _ = channel.adopt_message(m);
                    },
                    _ => {},
                }
                proof {
                    k = k + 1;
                }
            }
            proof {
                assert(backlog.skip(k).len() == 0);
                assert(backlog.take(k) =~= backlog);
                assert(backlog.skip(k) =~= Seq::<MessageView>::empty());
                fresh.lemma_adopt_all(backlog);
            }
        }
        let ghost before = channel_views(self.channels@);
        self.channels.push(channel);
        proof {
            assert(channel_views(self.channels@) =~= before.push(channel@));
            lemma_find_channel(before, channel@.name);
            assert forall|i: int, j: int| 0 <= i < j < self@.channels.len() implies (
            #[trigger] self@.channels[i]).name != (#[trigger] self@.channels[j]).name by {
                if j < before.len() {
                    assert(self@.channels[i] == old(self)@.channels[i]);
                    assert(self@.channels[j] == old(self)@.channels[j]);
                }
            }
            assert forall|i: int| 0 <= i < self@.channels.len() implies {
                &&& (#[trigger] self@.channels[i]).wf()
                &&& self@.channels[i].balanced()
                &&& self@.channels[i].queue.total_messages <= self@.message_count
            } by {
                if i < before.len() {
                    assert(self@.channels[i] == old(self)@.channels[i]);
                }
            }
        }
        Ok(())
    }

    /// Adds the channel `channel_name` as it was found on disk at `now`: its
    /// queue is empty in memory and backed by `disk`, and the records that
    /// wait there count as published.
    ///
    /// A name that is not well-formed, the name of a channel that exists,
    /// and a topic whose backlog still waits for its first channel are
    /// validation errors and change nothing.
    pub fn restore_channel_at(&mut self, channel_name: String, disk: DiskQueue, now: u64) -> (res:
        Result<(), NsqError>)
        requires
            old(self)@.wf(),
        ensures
            final(self)@.wf(),
            final(self)@ == old(self)@.after_restore_channel(channel_name@, disk@, now),
            res is Ok <==> old(self)@.can_restore(channel_name@),
            res is Err ==> res->Err_0 is Validation,
    {
        match validate_topic_channel_name(channel_name.as_str()) {
            Ok(()) => {},
            Err(e) => {
                return Err(e);
            },
        }
        if self.channel_index(channel_name.as_str()).is_some() {
            return Err(NsqError::Validation(String::from_str("Channel already exists")));
        }
        if self.channels.len() == 0 && !self.message_queue.holds_nothing() {
            return Err(
                NsqError::Validation(String::from_str("Topic holds messages for its first channel")),
            );
        }
        let depth = disk.depth();
        let queue = MessageQueue::new(self.max_memory_size, Some(disk));
        let channel = match Channel::new_at(channel_name, self.name.clone(), queue, now) {
            Ok(channel) => channel,
            Err(e) => {
                return Err(e);
            },
        };
        proof {
            assert(channel@.subscribers =~= Seq::<crate::channel::Subscriber>::empty());
            assert(channel@ == old(self)@.restored_channel(channel_name@, disk@, now));
        }
        let ghost before = channel_views(self.channels@);
        self.channels.push(channel);
        if depth > self.message_count {
            self.message_count = depth;
        }
        proof {
            assert(channel_views(self.channels@) =~= before.push(channel@));
            lemma_find_channel(before, channel@.name);
            assert forall|i: int, j: int| 0 <= i < j < self@.channels.len() implies (
            #[trigger] self@.channels[i]).name != (#[trigger] self@.channels[j]).name by {
                if j < before.len() {
                    assert(self@.channels[i] == old(self)@.channels[i]);
                    assert(self@.channels[j] == old(self)@.channels[j]);
                }
            }
            assert forall|i: int| 0 <= i < self@.channels.len() implies {
                &&& (#[trigger] self@.channels[i]).wf()
                &&& self@.channels[i].balanced()
                &&& self@.channels[i].queue.total_messages <= self@.message_count
            } by {
                if i < before.len() {
                    assert(self@.channels[i] == old(self)@.channels[i]);
                }
            }
        }
        Ok(())
    }

    /// Removes the channel called `channel_name`, with every message it
    /// holds. A name that no channel has is a validation error.
    pub fn remove_channel(&mut self, channel_name: &str) -> (res: Result<(), NsqError>)
        requires
            old(self)@.wf(),
        ensures
            final(self)@.wf(),
            final(self)@ == old(self)@.after_remove_channel(channel_name@),
            res is Ok <==> old(self)@.has_channel(channel_name@),
            !old(self)@.has_channel(channel_name@) ==> invalid_with(res, "Channel not found"@),
    {
        match self.channel_index(channel_name) {
            Some(i) => {
                let ghost before = channel_views(self.channels@);
                let _ = self.channels.remove(i);
                proof {
                    assert(channel_views(self.channels@) =~= before.remove(i as int));
                    assert forall|a: int, b: int| 0 <= a < b < self@.channels.len() implies (
                    #[trigger] self@.channels[a]).name != (#[trigger] self@.channels[b]).name by {
                        let a0 = if a < i { a } else { a + 1 };
                        let b0 = if b < i { b } else { b + 1 };
                        assert(self@.channels[a] == before[a0]);
                        assert(self@.channels[b] == before[b0]);
                    }
                    assert forall|k: int| 0 <= k < self@.channels.len() implies {
                        &&& (#[trigger] self@.channels[k]).wf()
                        &&& self@.channels[k].balanced()
                        &&& self@.channels[k].queue.total_messages <= self@.message_count
                    } by {
                        let k0 = if k < i { k } else { k + 1 };
                        assert(self@.channels[k] == before[k0]);
                    }
                }
                Ok(())
            },
            None => Err(NsqError::Validation(String::from_str("Channel not found"))),
        }
    }

    /// Pauses the topic: none of its channels hands out messages until it is
    /// unpaused. Pausing a paused topic changes nothing.
    pub fn pause(&mut self) -> (res: Result<(), NsqError>)
        ensures
            res is Ok,
            final(self)@ == old(self)@.after_pause(),
    {
        self.paused = true;
        Ok(())
    }

    /// Lets the channels of the topic hand out messages again.
    pub fn unpause(&mut self) -> (res: Result<(), NsqError>)
        ensures
            res is Ok,
            final(self)@ == old(self)@.after_unpause(),
    {
        self.paused = false;
        Ok(())
    }

    /// Whether the topic is paused.
    pub fn is_paused(&self) -> (paused: bool)
        ensures
            paused == self@.paused,
    {
        self.paused
    }

    /// Deletes the topic: it is paused and loses its channels and every
    /// message.
    pub fn delete(&mut self) -> (res: Result<(), NsqError>)
        requires
            old(self)@.wf(),
        ensures
            res is Ok,
            final(self)@ == old(self)@.after_delete(),
            final(self)@.wf(),
    {
        self.paused = true;
        self.channels.clear();
        self.message_queue.clear();
        proof {
            assert(channel_views(self.channels@) =~= Seq::<ChannelView>::empty());
        }
        Ok(())
    }

    /// Publishes `message`, with a fresh random identifier for the copy of
    /// each channel after the first.
    pub fn publish(&mut self, message: Message) -> (res: Result<(), NsqError>)
        requires
            old(self)@.wf(),
        ensures
            final(self)@.wf(),
            res is Ok <==> old(self)@.takes(message@),
            res is Err ==> res->Err_0 is Queue || res->Err_0 is Validation,
            exists|ids: Seq<MessageId>| final(self)@ == old(self)@.after_publish(message@, ids),
    {
        let mut ids: Vec<MessageId> = Vec::new();
        let n = self.channels.len();
        let mut k: usize = 1;
        while k < n
            invariant
                1 <= k,
            decreases n - k,
        {
            ids.push(MessageId::generate());
            k = k + 1;
        }
        let res = self.publish_with_ids(message, &ids);
        proof {
            assert(final(self)@ == old(self)@.after_publish(message@, ids@));
        }
        res
    }

    /// Publishes `message`, giving the copy of channel `k` the identifier
    /// `ids[k - 1]`.
    ///
    /// Without channels the message waits in the backlog of the topic. With
    /// channels each gets a copy at the tail of its queue, whether it is
    /// paused or has subscribers or not. A topic whose backlog, or one of
    /// whose channels, is full without a disk backing does not take the
    /// message: that is a queue error, and nothing changes.
    pub fn publish_with_ids(&mut self, message: Message, ids: &Vec<MessageId>) -> (res: Result<
        (),
        NsqError,
    >)
        requires
            old(self)@.wf(),
        ensures
            final(self)@.wf(),
            final(self)@ == old(self)@.after_publish(message@, ids@),
            res is Ok <==> old(self)@.takes(message@),
            res is Err ==> res->Err_0 is Queue || res->Err_0 is Validation,
    {
        let ghost m = message@;
        if self.message_count == u64::MAX {
            return Err(NsqError::Queue(String::from_str("Message counter exhausted")));
        }
        let n = self.channels.len();
        if n == 0 {
            proof {
                self@.backlog.lemma_held(m, m.id, ClientId { hi: 0, lo: 0 }, 0, 0);
            }
            return match self.message_queue.put(message) {
                Ok(()) => {
                    self.message_count = self.message_count + 1;
                    Ok(())
                },
                Err(e) => Err(e),
            };
        }
        if !all_accept(&self.channels, &message) {
            return Err(
                NsqError::Queue(String::from_str("Memory queue full and no disk queue available")),
            );
        }
        fan_out(&mut self.channels, &message, ids);
        self.message_count = self.message_count + 1;
        proof {
            assert(self@.channels =~= old(self)@.after_publish(m, ids@).channels);
            assert forall|i: int| 0 <= i < self@.channels.len() implies {
                &&& (#[trigger] self@.channels[i]).wf()
                &&& self@.channels[i].balanced()
                &&& self@.channels[i].queue.total_messages <= self@.message_count
            } by {
                let c = old(self)@.channels[i];
                assert(c.wf());
                c.queue.lemma_held(copy_for(m, i, ids@), m.id, ClientId { hi: 0, lo: 0 }, 0, 0);
            }
            assert forall|i: int, j: int| 0 <= i < j < self@.channels.len() implies (
            #[trigger] self@.channels[i]).name != (#[trigger] self@.channels[j]).name by {
                assert(old(self)@.channels[i].name != old(self)@.channels[j].name);
            }
        }
        Ok(())
    }

    /// Publishes the batch `messages` as a whole, message `k` with the
    /// identifiers `ids[k]` for its copies.
    ///
    /// Either every message of the batch is published, in order, or none:
    /// a topic that has no room for the whole batch is a queue error and
    /// changes nothing.
    pub fn publish_multiple_with_ids(&mut self, messages: Vec<Message>, ids: &Vec<Vec<MessageId>>)
        -> (res: Result<(), NsqError>)
        requires
            old(self)@.wf(),
        ensures
            final(self)@.wf(),
            final(self)@ == old(self)@.after_publish_all(message_views(messages@), id_rows(ids@)),
            res is Ok <==> old(self)@.takes_all(message_views(messages@)),
            res is Err ==> res->Err_0 is Queue,
    {
        let ghost ms = message_views(messages@);
        let ghost rows = id_rows(ids@);
        let n = messages.len();
        let big = largest(&messages);
        if !self.room_for(n, big) {
            proof {
                assert forall|b: nat| !(#[trigger] self@.has_room(ms.len(), b) && within(ms, b)) by {
                    if within(ms, b) && self@.has_room(ms.len(), b) {
                        if big > 0 {
                            let j = choose|j: int| 0 <= j < ms.len() && message_size(ms[j]) == big;
                            assert(message_size(ms[j]) <= b);
                        }
                        lemma_room_shrinks(self@, ms.len(), b, big as nat);
                    }
                }
            }
            return Err(
                NsqError::Queue(String::from_str("Memory queue full and no disk queue available")),
            );
        }
        let mut messages = messages;
        let ghost mut j: int = 0;
        proof {
            assert(ms.take(0) =~= Seq::<MessageView>::empty());
            assert(ms.skip(0) =~= ms);
        }
        while messages.len() > 0
            invariant
                0 <= j <= ms.len(),
                ms.len() == n,
                messages@.len() == ms.len() - j,
                message_views(messages@) == ms.skip(j),
                rows == id_rows(ids@),
                within(ms, big as nat),
                self@.wf(),
                self@.has_room((ms.len() - j) as nat, big as nat),
                self@ == old(self)@.after_publish_each(ms.take(j), rows),
            decreases messages@.len(),
        {
            let at = n - messages.len();
            let m = messages.remove(0);
            let empty: Vec<MessageId> = Vec::new();
            let row: &Vec<MessageId> = if at < ids.len() {
                &ids[at]
            } else {
                &empty
            };
            proof {
                assert(m@ == ms.skip(j)[0]);
                assert(message_views(messages@) =~= ms.skip(j).remove(0));
                assert(ms.skip(j).remove(0) =~= ms.skip(j + 1));
                assert(row@ == ids_of(rows, j));
            }
            self.publish_one_of(
                m,
                row,
                Ghost(ms),
                Ghost(rows),
                Ghost(j),
                Ghost(big as nat),
                Ghost(old(self)@),
            );
            proof {
                j = j + 1;
            }
        }
        proof {
            assert(ms.skip(j).len() == 0);
            assert(ms.take(j) =~= ms);
            assert(old(self)@.has_room(ms.len(), big as nat) && within(ms, big as nat));
        }
        Ok(())
    }

    /// Publishes message `j` of a batch for which the topic has room.
    fn publish_one_of(
        &mut self,
        m: Message,
        row: &Vec<MessageId>,
        Ghost(ms): Ghost<Seq<MessageView>>,
        Ghost(rows): Ghost<Seq<Seq<MessageId>>>,
        Ghost(j): Ghost<int>,
        Ghost(big): Ghost<nat>,
        Ghost(start): Ghost<TopicView>,
    )
        requires
            old(self)@.wf(),
            0 <= j < ms.len(),
            old(self)@.has_room((ms.len() - j) as nat, big),
            within(ms, big),
            m@ == ms[j],
            row@ == ids_of(rows, j),
            old(self)@ == start.after_publish_each(ms.take(j), rows),
        ensures
            final(self)@.wf(),
            final(self)@.has_room((ms.len() - j - 1) as nat, big),
            final(self)@ == start.after_publish_each(ms.take(j + 1), rows),
    {
        proof {
            assert(message_size(ms[j]) <= big);
            lemma_topic_room(self@, (ms.len() - j) as nat, big, m@, row@);
            assert(ms.take(j + 1).drop_last() =~= ms.take(j));
            assert(ms.take(j + 1).last() == ms[j]);
            assert(ms.take(j + 1).len() - 1 == j);
        }
        let _ = self.publish_with_ids(m, row);
    }

    /// Publishes the batch `messages` as a whole, with fresh random
    /// identifiers for the copies.
    pub fn publish_multiple(&mut self, messages: Vec<Message>) -> (res: Result<(), NsqError>)
        requires
            old(self)@.wf(),
        ensures
            final(self)@.wf(),
            res is Ok <==> old(self)@.takes_all(message_views(messages@)),
            res is Err ==> res->Err_0 is Queue,
            exists|ids: Seq<Seq<MessageId>>|
                final(self)@ == old(self)@.after_publish_all(message_views(messages@), ids),
    {
        let mut ids: Vec<Vec<MessageId>> = Vec::new();
        let n = messages.len();
        let width = self.channels.len();
        let mut k: usize = 0;
        while k < n
            invariant
                k <= n,
            decreases n - k,
        {
            let mut row: Vec<MessageId> = Vec::new();
            let mut c: usize = 1;
            while c < width
                invariant
                    1 <= c,
                decreases width - c,
            {
                row.push(MessageId::generate());
                c = c + 1;
            }
            ids.push(row);
            k = k + 1;
        }
        let res = self.publish_multiple_with_ids(messages, &ids);
        proof {
            assert(final(self)@ == old(self)@.after_publish_all(
                message_views(messages@),
                id_rows(ids@),
            ));
        }
        res
    }

    /// Whether the topic has room for `n` more messages of at most `big`
    /// bytes on the wire each.
    pub fn room_for(&self, n: usize, big: usize) -> (yes: bool)
        ensures
            yes == self@.has_room(n as nat, big as nat),
    {
        if n as u64 > u64::MAX - self.message_count {
            return false;
        }
        let width = self.channels.len();
        if width == 0 {
            return self.message_queue.has_room(n, big);
        }
        let mut k: usize = 0;
        while k < width
            invariant
                k <= width,
                width == self.channels@.len(),
                forall|j: int|
                    0 <= j < k ==> (#[trigger] self@.channels[j]).queue.has_room(n as nat, big as nat),
            decreases width - k,
        {
            if !self.channels[k].has_room(n, big) {
                assert(!self@.channels[k as int].queue.has_room(n as nat, big as nat));
                return false;
            }
            k = k + 1;
        }
        true
    }

    /// Publishes `message` for delivery at `ready_at`, giving the copy of
    /// channel `k` the identifier `ids[k - 1]`.
    ///
    /// Each channel gets a copy among its deferred messages. Without
    /// channels the message waits in the backlog like any other. A topic
    /// that does not take the message is a queue error and changes nothing.
    pub fn publish_deferred_with_ids(
        &mut self,
        message: Message,
        ids: &Vec<MessageId>,
        ready_at: u64,
    ) -> (res: Result<(), NsqError>)
        requires
            old(self)@.wf(),
        ensures
            final(self)@.wf(),
            final(self)@ == old(self)@.after_publish_deferred(message@, ids@, ready_at),
            res is Ok <==> old(self)@.takes_deferred(message@),
            res is Err ==> res->Err_0 is Queue || res->Err_0 is Validation,
    {
        let ghost m = message@;
        if self.message_count == u64::MAX {
            return Err(NsqError::Queue(String::from_str("Message counter exhausted")));
        }
        if self.channels.len() == 0 {
            proof {
                self@.backlog.lemma_held(m, m.id, ClientId { hi: 0, lo: 0 }, 0, 0);
            }
            return match self.message_queue.put(message) {
                Ok(()) => {
                    self.message_count = self.message_count + 1;
                    Ok(())
                },
                Err(e) => Err(e),
            };
        }
        if !all_countable(&self.channels) {
            return Err(NsqError::Queue(String::from_str("Message counter exhausted")));
        }
        fan_out_deferred(&mut self.channels, &message, ids, ready_at);
        self.message_count = self.message_count + 1;
        proof {
            assert(self@.channels =~= old(self)@.after_publish_deferred(m, ids@, ready_at).channels);
            assert forall|i: int| 0 <= i < self@.channels.len() implies {
                &&& (#[trigger] self@.channels[i]).wf()
                &&& self@.channels[i].balanced()
                &&& self@.channels[i].queue.total_messages <= self@.message_count
            } by {
                let c = old(self)@.channels[i];
                assert(c.wf());
                c.queue.lemma_held(
                    copy_for(m, i, ids@),
                    m.id,
                    ClientId { hi: 0, lo: 0 },
                    0,
                    ready_at,
                );
                c.lemma_wf_kept(
                    ChannelOp::Pause,
                    0,
                    false,
                    copy_for(m, i, ids@),
                    ready_at,
                    ClientId { hi: 0, lo: 0 },
                );
            }
            assert forall|i: int, j: int| 0 <= i < j < self@.channels.len() implies (
            #[trigger] self@.channels[i]).name != (#[trigger] self@.channels[j]).name by {
                assert(old(self)@.channels[i].name != old(self)@.channels[j].name);
            }
        }
        Ok(())
    }

    /// Hands over the records that wait to be appended to the disk backing
    /// of the backlog, oldest first.
    pub fn take_backlog_disk_writes(&mut self) -> (writes: Vec<DiskWrite>)
        requires
            old(self)@.wf(),
        ensures
            final(self)@.wf(),
            write_views(writes@) == old(self)@.backlog.spill,
            final(self)@ == (TopicView {
                backlog: QueueView { spill: Seq::empty(), ..old(self)@.backlog },
                ..old(self)@
            }),
    {
        self.message_queue.take_disk_writes()
    }

    /// Gives up records of the backlog that were planned for disk and could
    /// not be written: the `lost` records that were handed over, of which
    /// the first was to go to `offset` in segment `file_num`, and those that
    /// still wait to be handed over. The result tells whether that could be;
    /// if not, nothing changes.
    pub fn give_up_backlog_disk_writes(&mut self, file_num: u64, offset: u64, lost: u64) -> (done:
        bool)
        requires
            old(self)@.wf(),
        ensures
            final(self)@.wf(),
            done == old(self)@.backlog.can_give_up(file_num, offset, lost),
            final(self)@ == (TopicView {
                backlog: old(self)@.backlog.after_give_up(file_num, offset, lost),
                ..old(self)@
            }),
    {
        let done = self.message_queue.give_up_disk_writes(file_num, offset, lost);
        proof {
            assert(self@.backlog.held() <= old(self)@.backlog.held());
        }
        done
    }

    /// Hands over the records that the channel called `channel_name` wants
    /// appended to its disk backing, oldest first; none where the topic has
    /// no such channel.
    pub fn take_disk_writes(&mut self, channel_name: &str) -> (writes: Vec<DiskWrite>)
        requires
            old(self)@.wf(),
        ensures
            final(self)@.wf(),
            old(self)@.has_channel(channel_name@) ==> {
                let at = find_channel(old(self)@.channels, channel_name@);
                &&& write_views(writes@) == old(self)@.channels[at].queue.spill
                &&& final(self)@ == old(self)@.after_take_writes(at)
            },
            !old(self)@.has_channel(channel_name@) ==> writes@.len() == 0 && final(self)@ == old(
                self,
            )@,
    {
        let at = match self.channel_index(channel_name) {
            Some(at) => at,
            None => {
                return Vec::new();
            },
        };
        let ghost before = channel_views(self.channels@);
        let writes = take_writes_of(&mut self.channels, at);
        proof {
            assert forall|i: int, j: int| 0 <= i < j < self@.channels.len() implies (
            #[trigger] self@.channels[i]).name != (#[trigger] self@.channels[j]).name by {
                assert(before[i].name != before[j].name);
            }
            assert forall|i: int| 0 <= i < self@.channels.len() implies {
                &&& (#[trigger] self@.channels[i]).wf()
                &&& self@.channels[i].balanced()
                &&& self@.channels[i].queue.total_messages <= self@.message_count
            } by {
                assert(before[i].wf());
            }
        }
        writes
    }

    /// Lets the channel called `channel_name` give up records that were
    /// planned for disk and could not be written: the `lost` records that
    /// were handed over, of which the first was to go to `offset` in segment
    /// `file_num`, and those that still wait to be handed over. The result
    /// tells whether that could be; if not, nothing changes.
    pub fn give_up_disk_writes(
        &mut self,
        channel_name: &str,
        file_num: u64,
        offset: u64,
        lost: u64,
    ) -> (done: bool)
        requires
            old(self)@.wf(),
        ensures
            final(self)@.wf(),
            old(self)@.has_channel(channel_name@) ==> {
                let at = find_channel(old(self)@.channels, channel_name@);
                &&& done == old(self)@.channels[at].queue.can_give_up(file_num, offset, lost)
                &&& final(self)@ == old(self)@.after_give_up(at, file_num, offset, lost)
            },
            !old(self)@.has_channel(channel_name@) ==> !done && final(self)@ == old(self)@,
    {
        let at = match self.channel_index(channel_name) {
            Some(at) => at,
            None => {
                return false;
            },
        };
        let ghost before = channel_views(self.channels@);
        let done = give_up_of(&mut self.channels, at, file_num, offset, lost);
        proof {
            assert forall|i: int, j: int| 0 <= i < j < self@.channels.len() implies (
            #[trigger] self@.channels[i]).name != (#[trigger] self@.channels[j]).name by {
                assert(before[i].name != before[j].name);
            }
            assert forall|i: int| 0 <= i < self@.channels.len() implies {
                &&& (#[trigger] self@.channels[i]).wf()
                &&& self@.channels[i].balanced()
                &&& self@.channels[i].queue.total_messages <= self@.message_count
            } by {
                assert(before[i].wf());
                assert(self@.channels[i].queue.held() <= before[i].queue.held());
            }
        }
        done
    }

    /// Lets the channel called `channel_name` read the next record of its
    /// disk backing out of `segment`, the bytes of the segment that the
    /// backing reads next. The result tells whether a message came back; a
    /// record that is no message is dropped with a protocol error, and a
    /// name that no channel has is a validation error.
    pub fn read_disk(&mut self, channel_name: &str, segment: &[u8]) -> (res: Result<bool, NsqError>)
        requires
            old(self)@.wf(),
        ensures
            final(self)@.wf(),
            old(self)@.has_channel(channel_name@) ==> {
                let at = find_channel(old(self)@.channels, channel_name@);
                &&& final(self)@ == old(self)@.after_read_disk(at, segment@)
                &&& read_gave(res, old(self)@.channels[at].queue.read_back(segment@))
            },
            !old(self)@.has_channel(channel_name@) ==> final(self)@ == old(self)@ && res is Err
                && res->Err_0 is Validation,
    {
        let at = match self.channel_index(channel_name) {
            Some(at) => at,
            None => {
                return Err(NsqError::Validation(String::from_str("Channel not found")));
            },
        };
        let ghost before = channel_views(self.channels@);
        let res = read_disk_of(&mut self.channels, at, segment);
        proof {
            assert forall|i: int, j: int| 0 <= i < j < self@.channels.len() implies (
            #[trigger] self@.channels[i]).name != (#[trigger] self@.channels[j]).name by {
                assert(before[i].name != before[j].name);
            }
            assert forall|i: int| 0 <= i < self@.channels.len() implies {
                &&& (#[trigger] self@.channels[i]).wf()
                &&& self@.channels[i].balanced()
                &&& self@.channels[i].queue.total_messages <= self@.message_count
            } by {
                assert(before[i].wf());
                before[i].lemma_balanced(
                    blank_message(),
                    MessageId { hi: 0, lo: 0 },
                    ClientId { hi: 0, lo: 0 },
                    0,
                );
            }
        }
        res
    }

    /// Applies `op` at `now` to the channel called `channel_name`.
    ///
    /// A name that no channel has is a validation error; an operation on a
    /// message that is not in flight is a queue error; either changes
    /// nothing. `Dispatch` gives the message it handed out, if any.
    pub fn apply(&mut self, channel_name: &str, op: ChannelOp, now: u64) -> (res: Result<
        Option<Delivery>,
        NsqError,
    >)
        requires
            old(self)@.wf(),
        ensures
            final(self)@.wf(),
            !old(self)@.has_channel(channel_name@) ==> final(self)@ == old(self)@ && invalid_with(
                res,
                "Channel not found"@,
            ),
            old(self)@.has_channel(channel_name@) ==> {
                let at = find_channel(old(self)@.channels, channel_name@);
                let c = old(self)@.channels[at];
                &&& final(self)@ == old(self)@.after_op(at, op, now)
                &&& res is Ok <==> c.admits(op)
                &&& res is Err ==> res->Err_0 is Queue
                &&& res is Ok ==> (res->Ok_0 is Some <==> c.delivers(op, old(self)@.paused))
                &&& res is Ok && res->Ok_0 is Some ==> res->Ok_0->Some_0.message@
                    == c.queue.pending[0] && res->Ok_0->Some_0.client_id
                    == c.subscribers[c.chosen()->Some_0].client_id
            },
    {
        let at = match self.channel_index(channel_name) {
            Some(at) => at,
            None => {
                return Err(NsqError::Validation(String::from_str("Channel not found")));
            },
        };
        let ghost before = channel_views(self.channels@);
        let paused = self.paused;
        let res = apply_one(&mut self.channels, at, op, now, paused);
        proof {
            let c = before[at as int];
            assert(c.wf() && c.balanced());
            c.lemma_op_keeps(op, now, paused);
            c.lemma_wf_kept(op, now, paused, blank_message(), 0, ClientId { hi: 0, lo: 0 });
            assert forall|i: int, j: int| 0 <= i < j < self@.channels.len() implies (
            #[trigger] self@.channels[i]).name != (#[trigger] self@.channels[j]).name by {
                assert(before[i].name != before[j].name);
            }
            assert forall|i: int| 0 <= i < self@.channels.len() implies {
                &&& (#[trigger] self@.channels[i]).wf()
                &&& self@.channels[i].balanced()
                &&& self@.channels[i].queue.total_messages <= self@.message_count
            } by {
                assert(before[i].wf());
            }
        }
        res
    }

    /// Moves the deferred messages of every channel that are ready now to the
    /// pending ones.
    pub fn process_deferred(&mut self) -> (res: Result<(), NsqError>)
        requires
            old(self)@.wf(),
        ensures
            res is Ok,
            final(self)@.wf(),
            exists|now: u64| final(self)@ == old(self)@.after_process_deferred(now),
    {
        let now = now_millis();
        let res = self.process_deferred_at(now);
        proof {
            assert(final(self)@ == old(self)@.after_process_deferred(now));
        }
        res
    }

    /// Moves the deferred messages of every channel whose time has come at
    /// `now` to the pending ones.
    pub fn process_deferred_at(&mut self, now: u64) -> (res: Result<(), NsqError>)
        requires
            old(self)@.wf(),
        ensures
            res is Ok,
            final(self)@.wf(),
            final(self)@ == old(self)@.after_process_deferred(now),
    {
        self.sweep(Sweep::Deferred, now, ClientId { hi: 0, lo: 0 });
        proof {
            assert(final(self)@.channels =~= old(self)@.after_process_deferred(now).channels);
        }
        Ok(())
    }

    /// Moves the in-flight messages of every channel that have timed out by
    /// now back to the pending ones.
    pub fn cleanup_timeouts(&mut self) -> (res: Result<(), NsqError>)
        requires
            old(self)@.wf(),
        ensures
            res is Ok,
            final(self)@.wf(),
            exists|now: u64| final(self)@ == old(self)@.after_cleanup(now),
    {
        let now = now_millis();
        let res = self.cleanup_timeouts_at(now);
        proof {
            assert(final(self)@ == old(self)@.after_cleanup(now));
        }
        res
    }

    /// Moves the in-flight messages of every channel that have timed out at
    /// `now` back to the pending ones, each with one more attempt counted.
    pub fn cleanup_timeouts_at(&mut self, now: u64) -> (res: Result<(), NsqError>)
        requires
            old(self)@.wf(),
        ensures
            res is Ok,
            final(self)@.wf(),
            final(self)@ == old(self)@.after_cleanup(now),
    {
        self.sweep(Sweep::Timeouts, now, ClientId { hi: 0, lo: 0 });
        proof {
            assert(final(self)@.channels =~= old(self)@.after_cleanup(now).channels);
        }
        Ok(())
    }

    /// Removes a client that left from every channel. Every message it held
    /// in flight is pending again, as if handed back without delay.
    pub fn remove_client(&mut self, client_id: ClientId)
        requires
            old(self)@.wf(),
        ensures
            final(self)@.wf(),
            final(self)@ == old(self)@.after_remove_client(client_id),
            holds_nothing(final(self)@.channels, client_id),
    {
        self.sweep(Sweep::Client, 0, client_id);
        proof {
            assert(self@.channels =~= old(self)@.after_remove_client(client_id).channels);
            assert forall|i: int| 0 <= i < self@.channels.len() implies (
            #[trigger] self@.channels[i]).in_flight_of(client_id) == 0 by {
                crate::channel::lemma_released(old(self)@.channels[i].queue.in_flight, client_id);
            }
        }
    }

    /// One sweep over the channels.
    fn sweep(&mut self, what: Sweep, now: u64, client: ClientId)
        requires
            old(self)@.wf(),
        ensures
            final(self)@.wf(),
            final(self)@ == (TopicView {
                channels: old(self)@.channels.map_values(
                    |c: ChannelView| swept(c, what, now, client),
                ),
                ..old(self)@
            }),
    {
        sweep_all(&mut self.channels, what, now, client);
        proof {
            assert(self@.channels =~= old(self)@.channels.map_values(
                |c: ChannelView| swept(c, what, now, client),
            ));
            assert forall|i: int| 0 <= i < self@.channels.len() implies {
                &&& (#[trigger] self@.channels[i]).wf()
                &&& self@.channels[i].balanced()
                &&& self@.channels[i].queue.total_messages <= self@.message_count
            } by {
                let c = old(self)@.channels[i];
                assert(c.wf());
                c.queue.lemma_held(blank_message(), MessageId { hi: 0, lo: 0 }, client, 0, now);
                c.lemma_wf_kept(ChannelOp::Pause, now, false, blank_message(), 0, client);
            }
            assert forall|i: int, j: int| 0 <= i < j < self@.channels.len() implies (
            #[trigger] self@.channels[i]).name != (#[trigger] self@.channels[j]).name by {
                assert(old(self)@.channels[i].name != old(self)@.channels[j].name);
            }
        }
    }

    /// The counters of the topic: its own, and the sums over its channels.
    pub fn stats(&self) -> (stats: TopicStats)
        ensures
            stats == self@.stats(),
    {
        let n = self.channels.len();
        let mut backend: u64 = self.message_queue.backend_depth();
        let mut in_flight: u64 = 0;
        let mut deferred: u64 = 0;
        let mut requeued: u64 = 0;
        let mut timed_out: u64 = 0;
        let ghost all = self@.channels;
        let mut k: usize = 0;
        proof {
            assert(all.take(0) =~= Seq::<ChannelView>::empty());
        }
        while k < n
            invariant
                k <= n,
                n == self.channels@.len(),
                all == self@.channels,
                backend == clamp(self@.backlog.backend_depth() + total_backend(all.take(k as int))),
                in_flight == clamp(total_in_flight(all.take(k as int))),
                deferred == clamp(total_deferred(all.take(k as int))),
                requeued == clamp(total_requeued(all.take(k as int))),
                timed_out == clamp(total_timed_out(all.take(k as int))),
            decreases n - k,
        {
            let c = self.channels[k].stats();
            proof {
                assert(all.take(k + 1).drop_last() =~= all.take(k as int));
                assert(all.take(k + 1).last() == all[k as int]);
            }
            backend = backend.saturating_add(c.backend_depth);
            in_flight = in_flight.saturating_add(c.in_flight_count);
            deferred = deferred.saturating_add(c.deferred_count);
            requeued = requeued.saturating_add(c.requeue_count);
            timed_out = timed_out.saturating_add(c.timeout_count);
            k = k + 1;
        }
        proof {
            assert(all.take(n as int) =~= all);
        }
        TopicStats {
            message_count: self.message_count,
            channel_count: n as u64,
            depth: self.message_queue.depth() as u64,
            backend_depth: backend,
            in_flight_count: in_flight,
            deferred_count: deferred,
            requeue_count: requeued,
            timeout_count: timed_out,
        }
    }

    /// The number of messages in flight in the channels of the topic.
    pub fn in_flight_count(&self) -> (n: u64)
        ensures
            n == clamp(total_in_flight(self@.channels)),
    {
        self.stats().in_flight_count
    }

    /// The number of deferred messages in the channels of the topic.
    pub fn deferred_count(&self) -> (n: u64)
        ensures
            n == clamp(total_deferred(self@.channels)),
    {
        self.stats().deferred_count
    }

    /// The number of messages waiting in the backlog of the topic.
    pub fn depth(&self) -> (n: usize)
        ensures
            n == self@.backlog.pending.len(),
    {
        self.message_queue.depth()
    }

    /// The number of messages published to the topic.
    pub fn message_count(&self) -> (n: u64)
        ensures
            n == self@.message_count,
    {
        self.message_count
    }
}

} // verus!
