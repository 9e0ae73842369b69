//! The queue of one channel or topic: pending messages in memory with an
//! optional disk backing, the messages in flight, and the deferred ones.
//!
//! Times are milliseconds since the Unix epoch.

use crate::clock::now_millis;
use crate::disk_queue::{
    disk_view, lemma_filter_step, DiskQueue, DiskRead, DiskState, DiskWrite,
};
use crate::errors::{queue_error_with, NsqError};
use crate::seqs::{
    distinct_by, lemma_filter_distinct, lemma_filter_passes, lemma_one_of_key, lemma_push_distinct,
};
use crate::message::{
    blank_message, message_bytes, message_size, message_wire_len, parse_message, Message,
    MessageId, MessageStats, MessageView,
};
use crate::wire::payload_bytes;
use vstd::prelude::*;
use vstd::string::*;

verus! {

/// The identifier of a client connection.
#[derive(Debug, Clone, Copy, PartialEq, Eq, Hash, Structural)]
pub struct ClientId {
    pub hi: u64,
    pub lo: u64,
}

impl ClientId {
    /// A fresh random identifier.
    pub fn generate() -> ClientId {
        let id = MessageId::generate();
        ClientId { hi: id.hi, lo: id.lo }
    }
}

/// `a + b`, or `u64::MAX` where that does not fit.
pub open spec fn sat_add(a: u64, b: nat) -> u64 {
    if a + b <= u64::MAX {
        (a + b) as u64
    } else {
        u64::MAX
    }
}

/// A message with one more attempt counted; the counter stops at its
/// largest value.
pub open spec fn bumped(m: MessageView) -> MessageView {
    MessageView {
        attempts: if m.attempts < u16::MAX {
            (m.attempts + 1) as u16
        } else {
            u16::MAX
        },
        ..m
    }
}

/// Counts one more attempt on `message`.
pub fn bump_attempts(message: Message) -> (out: Message)
    ensures
        out@ == bumped(message@),
{
    let mut out = message;
    out.attempts = out.attempts.saturating_add(1);
    out
}

/// A message that was handed to a client and not yet acknowledged.
#[derive(Debug)]
pub struct InFlightMessage {
    pub message: Message,
    /// The client that holds the message.
    pub client_id: ClientId,
    /// When the timeout started to run.
    pub start_time: u64,
    /// How long the client has to acknowledge.
    pub timeout: u64,
    pub requeue_count: u16,
}

/// An in-flight entry as a mathematical value.
pub struct InFlightView {
    pub message: MessageView,
    pub client_id: ClientId,
    pub start_time: u64,
    pub timeout: u64,
    pub requeue_count: u16,
}

/// The result of a read from disk agrees with what the read finds: the
/// same answer, and a protocol error for a record that is no message.
pub open spec fn read_gave(res: Result<bool, NsqError>, found: Option<bool>) -> bool {
    match found {
        Some(b) => res == Ok::<bool, NsqError>(b),
        None => res is Err && res->Err_0 is Protocol,
    }
}

impl View for InFlightMessage {
    type V = InFlightView;

    open spec fn view(&self) -> InFlightView {
        InFlightView {
            message: self.message@,
            client_id: self.client_id,
            start_time: self.start_time,
            timeout: self.timeout,
            requeue_count: self.requeue_count,
        }
    }
}

impl InFlightView {
    /// The entry has timed out at `now`: its start plus its timeout is not
    /// after `now`.
    pub open spec fn expired(self, now: u64) -> bool {
        self.start_time + self.timeout <= now
    }

    /// The time left at `now` before the entry times out.
    pub open spec fn remaining(self, now: u64) -> u64 {
        if self.expired(now) {
            0
        } else if self.start_time + self.timeout - now <= u64::MAX {
            (self.start_time + self.timeout - now) as u64
        } else {
            u64::MAX
        }
    }
}

impl InFlightMessage {
    /// An entry for `message`, held by `client_id`, whose timeout starts to
    /// run now.
    pub fn new(message: Message, client_id: ClientId, timeout: u64) -> (e: InFlightMessage)
        ensures
            e.message == message,
            e.client_id == client_id,
            e.timeout == timeout,
            e.requeue_count == 0,
    {
        InFlightMessage::new_at(message, client_id, timeout, now_millis())
    }

    /// An entry for `message`, held by `client_id`, whose timeout starts to
    /// run at `now`.
    pub fn new_at(message: Message, client_id: ClientId, timeout: u64, now: u64) -> (e:
        InFlightMessage)
        ensures
            e.message == message,
            e.client_id == client_id,
            e.start_time == now,
            e.timeout == timeout,
            e.requeue_count == 0,
    {
        InFlightMessage { message, client_id, start_time: now, timeout, requeue_count: 0 }
    }

    /// Whether the entry has timed out by now.
    pub fn is_timed_out(&self) -> (yes: bool)
        ensures
            exists|now: u64| yes == #[trigger] self@.expired(now),
    {
        let now = now_millis();
        let yes = self.is_timed_out_at(now);
        proof {
            assert(yes == self@.expired(now));
        }
        yes
    }

    /// Whether the entry has timed out at `now`.
    pub fn is_timed_out_at(&self, now: u64) -> (yes: bool)
        ensures
            yes == self@.expired(now),
    {
        now >= self.start_time && now - self.start_time >= self.timeout
    }

    /// The time left before the entry times out.
    pub fn time_remaining(&self) -> (left: u64)
        ensures
            exists|now: u64| left == #[trigger] self@.remaining(now),
    {
        let now = now_millis();
        let left = self.time_remaining_at(now);
        proof {
            assert(left == self@.remaining(now));
        }
        left
    }

    /// The time left at `now` before the entry times out.
    pub fn time_remaining_at(&self, now: u64) -> (left: u64)
        ensures
            left == self@.remaining(now),
    {
        if self.is_timed_out_at(now) {
            0
        } else if now >= self.start_time {
            self.timeout - (now - self.start_time)
        } else {
            self.timeout.saturating_add(self.start_time - now)
        }
    }
}

/// A message that waits for its time of delivery.
#[derive(Debug)]
pub struct DeferredMessage {
    pub message: Message,
    /// When the message becomes ready.
    pub ready_at: u64,
}

/// A deferred entry as a mathematical value.
pub struct DeferredView {
    pub message: MessageView,
    pub ready_at: u64,
}

impl View for DeferredMessage {
    type V = DeferredView;

    open spec fn view(&self) -> DeferredView {
        DeferredView { message: self.message@, ready_at: self.ready_at }
    }
}

/// Which in-flight entries an operation is about.
#[derive(Debug, Clone, Copy, PartialEq, Eq, Structural)]
pub enum Pick {
    /// The entries of one message.
    Id(MessageId),
    /// The entries that have timed out at the given time.
    Expired(u64),
    /// The entries held by one client.
    Client(ClientId),
}

/// Whether `pick` is about `e`.
pub open spec fn picks(pick: Pick, e: InFlightView) -> bool {
    match pick {
        Pick::Id(id) => e.message.id == id,
        Pick::Expired(now) => e.expired(now),
        Pick::Client(client) => e.client_id == client,
    }
}

/// Which deferred entries an operation is about.
#[derive(Debug, Clone, Copy, PartialEq, Eq, Structural)]
pub enum DeferredPick {
    /// The entries of one message.
    Id(MessageId),
    /// The entries that are ready at the given time.
    Ready(u64),
}

/// Whether `pick` is about `e`.
pub open spec fn picks_deferred(pick: DeferredPick, e: DeferredView) -> bool {
    match pick {
        DeferredPick::Id(id) => e.message.id == id,
        DeferredPick::Ready(now) => e.ready_at <= now,
    }
}

/// The entries of `s` that `pick` is about, in order.
pub open spec fn picked(s: Seq<InFlightView>, pick: Pick) -> Seq<InFlightView> {
    s.filter(|e: InFlightView| picks(pick, e))
}

/// The entries of `s` that `pick` is not about, in order.
pub open spec fn unpicked(s: Seq<InFlightView>, pick: Pick) -> Seq<InFlightView> {
    s.filter(|e: InFlightView| !picks(pick, e))
}

/// The entries of `s` that `pick` is about, in order.
pub open spec fn picked_deferred(s: Seq<DeferredView>, pick: DeferredPick) -> Seq<DeferredView> {
    s.filter(|e: DeferredView| picks_deferred(pick, e))
}

/// The entries of `s` that `pick` is not about, in order.
pub open spec fn unpicked_deferred(s: Seq<DeferredView>, pick: DeferredPick) -> Seq<
    DeferredView,
> {
    s.filter(|e: DeferredView| !picks_deferred(pick, e))
}

/// The entries `s` with the timeout of message `id` started anew at `now`.
pub open spec fn touched(s: Seq<InFlightView>, id: MessageId, now: u64) -> Seq<InFlightView> {
    s.map_values(
        |e: InFlightView|
            if e.message.id == id {
                InFlightView { start_time: now, ..e }
            } else {
                e
            },
    )
}

/// The parts that a pick splits a sequence into have all its entries.
pub proof fn lemma_pick_lengths(s: Seq<InFlightView>, pick: Pick)
    ensures
        picked(s, pick).len() + unpicked(s, pick).len() == s.len(),
    decreases s.len(),
{
    reveal(Seq::filter);
    if s.len() > 0 {
        lemma_pick_lengths(s.drop_last(), pick);
    }
}

/// A pick that is about no entry leaves the sequence as it is.
pub proof fn lemma_none_picked(s: Seq<InFlightView>, pick: Pick)
    requires
        picked(s, pick).len() == 0,
    ensures
        unpicked(s, pick) == s,
    decreases s.len(),
{
    reveal(Seq::filter);
    if s.len() > 0 {
        lemma_none_picked(s.drop_last(), pick);
        assert(s.drop_last().push(s.last()) =~= s);
    }
}

/// Touching a message that is not among the entries changes nothing.
pub proof fn lemma_touch_none(s: Seq<InFlightView>, id: MessageId, now: u64)
    requires
        picked(s, Pick::Id(id)).len() == 0,
    ensures
        touched(s, id, now) == s,
{
    let pred = |e: InFlightView| picks(Pick::Id(id), e);
    assert forall|i: int| 0 <= i < s.len() implies touched(s, id, now)[i] == s[i] by {
        if s[i].message.id == id {
            s.lemma_filter_contains(pred, i);
        }
    }
    assert(touched(s, id, now) =~= s);
}

/// The parts that a pick splits a sequence into have all its entries.
pub proof fn lemma_deferred_pick_lengths(s: Seq<DeferredView>, pick: DeferredPick)
    ensures
        picked_deferred(s, pick).len() + unpicked_deferred(s, pick).len() == s.len(),
    decreases s.len(),
{
    reveal(Seq::filter);
    if s.len() > 0 {
        lemma_deferred_pick_lengths(s.drop_last(), pick);
    }
}

/// The messages of in-flight entries, each with one more attempt counted.
pub open spec fn redeliveries(s: Seq<InFlightView>) -> Seq<MessageView> {
    s.map_values(|e: InFlightView| bumped(e.message))
}

/// The messages of deferred entries.
pub open spec fn deferred_messages(s: Seq<DeferredView>) -> Seq<MessageView> {
    s.map_values(|e: DeferredView| e.message)
}

/// The views of in-flight entries.
pub open spec fn in_flight_views(v: Seq<InFlightMessage>) -> Seq<InFlightView> {
    v.map_values(|e: InFlightMessage| e@)
}

/// The views of deferred entries.
pub open spec fn deferred_views(v: Seq<DeferredMessage>) -> Seq<DeferredView> {
    v.map_values(|e: DeferredMessage| e@)
}

/// The views of messages.
pub open spec fn message_views(v: Seq<Message>) -> Seq<MessageView> {
    v.map_values(|m: Message| m@)
}

/// A disk write as a mathematical value.
pub struct DiskWriteView {
    pub file_num: u64,
    pub offset: u64,
    pub record: Seq<u8>,
}

/// The views of disk writes.
pub open spec fn write_views(v: Seq<DiskWrite>) -> Seq<DiskWriteView> {
    v.map_values(
        |w: DiskWrite| DiskWriteView { file_num: w.file_num, offset: w.offset, record: w.record@ },
    )
}

/// A queue as a mathematical value.
pub struct QueueView {
    /// The messages waiting in memory, oldest first.
    pub pending: Seq<MessageView>,
    /// The messages handed to clients.
    pub in_flight: Seq<InFlightView>,
    /// The messages waiting for their time.
    pub deferred: Seq<DeferredView>,
    /// How many new messages the memory holds at most.
    pub limit: usize,
    /// The disk backing, if there is one.
    pub disk: Option<DiskState>,
    /// The records to append to the disk backing, oldest first.
    pub spill: Seq<DiskWriteView>,
    /// How many messages were accepted.
    pub total_messages: u64,
    /// How many bytes the accepted messages take on the wire.
    pub total_bytes: u64,
    /// How many messages were handed back.
    pub requeued: u64,
    /// How many messages timed out.
    pub timed_out: u64,
}

impl QueueView {
    /// The number of records on disk.
    pub open spec fn backend_depth(self) -> nat {
        match self.disk {
            Some(d) => d.depth as nat,
            None => 0,
        }
    }

    /// The number of messages the queue holds in any state.
    pub open spec fn held(self) -> nat {
        self.pending.len() + self.in_flight.len() + self.deferred.len() + self.backend_depth()
    }

    /// Whether a new message goes to memory.
    pub open spec fn fits_memory(self) -> bool {
        self.pending.len() < self.limit
    }

    /// Whether a new message `m` goes to disk: memory is full and the disk
    /// backing takes it.
    pub open spec fn spills(self, m: MessageView) -> bool {
        !self.fits_memory() && self.disk is Some && self.disk->Some_0.accepts(message_wire_len(m))
    }

    /// Whether the count of accepted messages can still grow.
    pub open spec fn countable(self) -> bool {
        self.total_messages < u64::MAX
    }

    /// Whether the queue takes the new message `m`.
    pub open spec fn accepts(self, m: MessageView) -> bool {
        self.countable() && (self.fits_memory() || self.spills(m))
    }

    /// Whether the queue takes `n` more new messages of at most `big` bytes
    /// on the wire each: their count fits the counter, and either the
    /// memory has room for all of them or the disk backing has.
    pub open spec fn has_room(self, n: nat, big: nat) -> bool {
        &&& self.total_messages + n <= u64::MAX
        &&& (self.pending.len() + n <= self.limit || (self.disk is Some
            && self.disk->Some_0.has_room(n, big)))
    }

    /// The counters after one more message `m` was accepted.
    pub open spec fn counted(self, m: MessageView) -> QueueView {
        QueueView {
            total_messages: (self.total_messages + 1) as u64,
            total_bytes: sat_add(self.total_bytes, message_size(m) as nat),
            ..self
        }
    }

    /// The queue after `put(m)`: the message at the tail of memory, or as a
    /// record for the disk where memory is full, or nothing changed where
    /// the queue does not take it.
    pub open spec fn after_put(self, m: MessageView) -> QueueView {
        if !self.countable() {
            self
        } else if self.fits_memory() {
            QueueView { pending: self.pending.push(m), ..self.counted(m) }
        } else if self.spills(m) {
            let d = self.disk->Some_0;
            let len = message_wire_len(m);
            QueueView {
                disk: Some(d.after_put(len)),
                spill: self.spill.push(
                    DiskWriteView {
                        file_num: d.target_file(len),
                        offset: d.target_offset(len),
                        record: payload_bytes(message_bytes(m)),
                    },
                ),
                ..self.counted(m)
            }
        } else {
            self
        }
    }

    /// The queue after `m` was put at the tail of memory whatever the limit,
    /// and counted; nothing changes where the count cannot grow.
    pub open spec fn after_adopt(self, m: MessageView) -> QueueView {
        if self.countable() {
            QueueView { pending: self.pending.push(m), ..self.counted(m) }
        } else {
            self
        }
    }

    /// The queue after the messages `ms` were adopted one after the other.
    pub open spec fn after_adopt_all(self, ms: Seq<MessageView>) -> QueueView
        decreases ms.len(),
    {
        if ms.len() == 0 {
            self
        } else {
            self.after_adopt_all(ms.drop_last()).after_adopt(ms.last())
        }
    }

    /// The queue after its oldest pending message was taken.
    pub open spec fn after_get(self) -> QueueView {
        if self.pending.len() > 0 {
            QueueView { pending: self.pending.drop_first(), ..self }
        } else {
            self
        }
    }

    /// The queue after `m` went in flight to `client` at `now`. An earlier
    /// entry of the same message is replaced.
    pub open spec fn after_mark(self, m: MessageView, client: ClientId, timeout: u64, now: u64)
        -> QueueView {
        QueueView {
            in_flight: unpicked(self.in_flight, Pick::Id(m.id)).push(
                InFlightView {
                    message: m,
                    client_id: client,
                    start_time: now,
                    timeout,
                    requeue_count: 0,
                },
            ),
            ..self
        }
    }

    /// Whether message `id` is in flight.
    pub open spec fn is_in_flight(self, id: MessageId) -> bool {
        picked(self.in_flight, Pick::Id(id)).len() > 0
    }

    /// The queue after message `id` was acknowledged.
    pub open spec fn after_finish(self, id: MessageId) -> QueueView {
        QueueView { in_flight: unpicked(self.in_flight, Pick::Id(id)), ..self }
    }

    /// The message of the in-flight entry of `id`, counted once more.
    pub open spec fn redelivery(self, id: MessageId) -> MessageView {
        bumped(picked(self.in_flight, Pick::Id(id))[0].message)
    }

    /// The queue after the in-flight message `id` was handed back with
    /// `delay` at `now`: at the tail of memory without delay, else deferred
    /// until `now + delay`.
    pub open spec fn after_requeue(self, id: MessageId, delay: u64, now: u64) -> QueueView {
        if !self.is_in_flight(id) {
            self
        } else if delay == 0 {
            QueueView {
                in_flight: unpicked(self.in_flight, Pick::Id(id)),
                pending: self.pending.push(self.redelivery(id)),
                requeued: sat_add(self.requeued, 1),
                ..self
            }
        } else {
            self.after_defer(id, delay, now)
        }
    }

    /// The queue after the in-flight message `id` was deferred until
    /// `now + delay`. An earlier deferred entry of the same message is
    /// replaced.
    pub open spec fn after_defer(self, id: MessageId, delay: u64, now: u64) -> QueueView {
        if !self.is_in_flight(id) {
            self
        } else {
            QueueView {
                in_flight: unpicked(self.in_flight, Pick::Id(id)),
                deferred: unpicked_deferred(self.deferred, DeferredPick::Id(id)).push(
                    DeferredView { message: self.redelivery(id), ready_at: sat_add(now, delay as nat) },
                ),
                requeued: sat_add(self.requeued, 1),
                ..self
            }
        }
    }

    /// The queue after the new message `m` was deferred until `ready_at`;
    /// nothing changes where the count of accepted messages cannot grow.
    pub open spec fn after_put_deferred(self, m: MessageView, ready_at: u64) -> QueueView {
        if self.countable() {
            QueueView {
                deferred: unpicked_deferred(self.deferred, DeferredPick::Id(m.id)).push(
                    DeferredView { message: m, ready_at },
                ),
                ..self.counted(m)
            }
        } else {
            self
        }
    }

    /// The queue after the deferred entries ready at `now` were taken out.
    pub open spec fn after_process_deferred(self, now: u64) -> QueueView {
        QueueView { deferred: unpicked_deferred(self.deferred, DeferredPick::Ready(now)), ..self }
    }

    /// The messages that are ready at `now`, in the order they were
    /// deferred.
    pub open spec fn ready(self, now: u64) -> Seq<MessageView> {
        deferred_messages(picked_deferred(self.deferred, DeferredPick::Ready(now)))
    }

    /// The queue after the in-flight entries that `pick` is about were taken
    /// out as timed out.
    pub open spec fn after_cleanup(self, pick: Pick) -> QueueView {
        QueueView {
            in_flight: unpicked(self.in_flight, pick),
            timed_out: sat_add(self.timed_out, picked(self.in_flight, pick).len()),
            ..self
        }
    }

    /// The queue after `messages` were put back at the tail of memory.
    pub open spec fn after_restore(self, messages: Seq<MessageView>) -> QueueView {
        QueueView { pending: self.pending + messages, ..self }
    }

    /// The queue after the in-flight entries of `client` were taken out to be
    /// handed back.
    pub open spec fn after_release(self, client: ClientId) -> QueueView {
        QueueView {
            in_flight: unpicked(self.in_flight, Pick::Client(client)),
            requeued: sat_add(self.requeued, picked(self.in_flight, Pick::Client(client)).len()),
            ..self
        }
    }

    /// The queue after the timeout of message `id` started anew at `now`.
    pub open spec fn after_touch(self, id: MessageId, now: u64) -> QueueView {
        QueueView { in_flight: touched(self.in_flight, id, now), ..self }
    }

    /// The queue after the record `record` came back from disk: its message
    /// is at the tail of memory. A record that is no message changes nothing.
    pub open spec fn after_load(self, record: Seq<u8>) -> QueueView {
        match parse_message(record) {
            Some(m) => QueueView { pending: self.pending.push(m), ..self },
            None => self,
        }
    }

    /// The queue after the next record of `segment` was read back from disk:
    /// a record that is a message is at the tail of memory, one that is
    /// none is dropped; without a record the read position moves on where
    /// later segments exist.
    pub open spec fn after_read_disk(self, segment: Seq<u8>) -> QueueView {
        match self.disk {
            None => self,
            Some(d) => match d.next_record(segment) {
                Some(record) => (QueueView {
                    disk: Some(d.after_record(record.len())),
                    ..self
                }).after_load(record),
                None => if d.read_file_num < d.write_file_num {
                    QueueView { disk: Some(d.after_roll()), ..self }
                } else {
                    self
                },
            },
        }
    }

    /// The queue after its disk backing was handed over, with the records
    /// that were still to be written to it: it goes on with an empty backing
    /// of the same limits.
    pub open spec fn after_hand_over(self) -> QueueView {
        QueueView {
            disk: match self.disk {
                Some(d) => Some(d.fresh()),
                None => None,
            },
            spill: Seq::empty(),
            ..self
        }
    }

    /// Whether records that were planned for disk can be given up: the
    /// `lost` records that were handed over from the position `offset` in
    /// segment `file_num` on, and with them those that still wait to be
    /// handed over.
    pub open spec fn can_give_up(self, file_num: u64, offset: u64, lost: u64) -> bool {
        match self.disk {
            Some(d) => lost + self.spill.len() <= u64::MAX && d.can_rewind(
                file_num,
                offset,
                (lost + self.spill.len()) as u64,
            ),
            None => false,
        }
    }

    /// The queue after records that were planned for disk were given up;
    /// no change where that cannot be.
    pub open spec fn after_give_up(self, file_num: u64, offset: u64, lost: u64) -> QueueView {
        if self.can_give_up(file_num, offset, lost) {
            QueueView {
                disk: Some(
                    self.disk->Some_0.after_rewind(
                        file_num,
                        offset,
                        (lost + self.spill.len()) as u64,
                    ),
                ),
                spill: Seq::empty(),
                ..self
            }
        } else {
            self
        }
    }

    /// The segment that the queue reads next: none while messages are
    /// pending in memory, which go first, and none where no record waits on
    /// disk.
    pub open spec fn next_read(self) -> Option<u64> {
        match self.disk {
            Some(d) => if self.pending.len() == 0 && d.depth > 0 {
                Some(d.read_file_num)
            } else {
                None
            },
            None => None,
        }
    }

    /// What reading the next record of `segment` back from disk finds:
    /// whether a message came back, or `None` for a record that is no
    /// message.
    pub open spec fn read_back(self, segment: Seq<u8>) -> Option<bool> {
        match self.disk {
            None => Some(false),
            Some(d) => match d.next_record(segment) {
                Some(record) => if parse_message(record) is Some {
                    Some(true)
                } else {
                    None
                },
                None => Some(false),
            },
        }
    }

    /// The counters of the queue.
    pub open spec fn stats(self) -> MessageStats {
        MessageStats {
            total_messages: self.total_messages,
            total_bytes: self.total_bytes,
            messages_in_flight: self.in_flight.len() as u64,
            messages_deferred: self.deferred.len() as u64,
            messages_requeued: self.requeued,
            messages_timed_out: self.timed_out,
        }
    }

    /// The queue after every message was dropped, those on disk included.
    pub open spec fn after_clear(self) -> QueueView {
        QueueView {
            pending: Seq::empty(),
            in_flight: Seq::empty(),
            deferred: Seq::empty(),
            disk: match self.disk {
                Some(d) => Some(d.after_skip()),
                None => None,
            },
            ..self
        }
    }
}

/// A queue with nothing in memory, in flight or deferred, with the memory
/// limit `limit` and the disk backing `disk`. What waits on disk counts as
/// accepted.
pub open spec fn empty_queue(limit: usize, disk: Option<DiskState>) -> QueueView {
    QueueView {
        pending: Seq::empty(),
        in_flight: Seq::empty(),
        deferred: Seq::empty(),
        limit,
        disk,
        spill: Seq::empty(),
        total_messages: match disk {
            Some(d) => d.depth,
            None => 0,
        },
        total_bytes: 0,
        requeued: 0,
        timed_out: 0,
    }
}

/// A queue with nothing in memory, in flight or deferred that takes over
/// the disk backing `disk` with the records `spill` that are still to be
/// written to it.
pub open spec fn inherited_queue(limit: usize, disk: Option<DiskState>, spill: Seq<DiskWriteView>)
    -> QueueView {
    QueueView { spill, ..empty_queue(limit, disk) }
}

/// The message queue of a channel or a topic.
#[derive(Debug)]
pub struct MessageQueue {
    memory_queue: Vec<Message>,
    max_memory_size: usize,
    disk_queue: Option<DiskQueue>,
    disk_writes: Vec<DiskWrite>,
    in_flight: Vec<InFlightMessage>,
    deferred: Vec<DeferredMessage>,
    total_messages: u64,
    total_bytes: u64,
    requeued: u64,
    timed_out: u64,
}

impl View for MessageQueue {
    type V = QueueView;

    closed spec fn view(&self) -> QueueView {
        QueueView {
            pending: message_views(self.memory_queue@),
            in_flight: in_flight_views(self.in_flight@),
            deferred: deferred_views(self.deferred@),
            limit: self.max_memory_size,
            disk: match self.disk_queue {
                Some(d) => Some(d@),
                None => None,
            },
            spill: write_views(self.disk_writes@),
            total_messages: self.total_messages,
            total_bytes: self.total_bytes,
            requeued: self.requeued,
            timed_out: self.timed_out,
        }
    }
}

/// Whether `pick` is about `e`.
fn is_picked(pick: Pick, e: &InFlightMessage) -> (yes: bool)
    ensures
        yes == picks(pick, e@),
{
    match pick {
        Pick::Id(id) => e.message.id == id,
        Pick::Expired(now) => e.is_timed_out_at(now),
        Pick::Client(client) => e.client_id == client,
    }
}

/// Whether `pick` is about `e`.
fn is_picked_deferred(pick: DeferredPick, e: &DeferredMessage) -> (yes: bool)
    ensures
        yes == picks_deferred(pick, e@),
{
    match pick {
        DeferredPick::Id(id) => e.message.id == id,
        DeferredPick::Ready(now) => e.ready_at <= now,
    }
}

/// Takes the entries that `pick` is about out of `entries`; both parts keep
/// their order.
fn extract(entries: &mut Vec<InFlightMessage>, pick: Pick) -> (out: Vec<InFlightMessage>)
    ensures
        in_flight_views(final(entries)@) == unpicked(in_flight_views(old(entries)@), pick),
        in_flight_views(out@) == picked(in_flight_views(old(entries)@), pick),
{
    let ghost all = in_flight_views(entries@);
    let ghost yes = |e: InFlightView| picks(pick, e);
    let ghost no = |e: InFlightView| !picks(pick, e);
    let mut out: Vec<InFlightMessage> = Vec::new();
    let mut i: usize = 0;
    let ghost mut k: int = 0;
    proof {
        assert(all.take(0) =~= Seq::<InFlightView>::empty());
        assert(all.skip(0) =~= all);
        assert(in_flight_views(out@) =~= Seq::<InFlightView>::empty());
        assert(all.take(0).filter(no) + all.skip(0) =~= all);
    }
    while i < entries.len()
        invariant
            0 <= k <= all.len(),
            i <= entries@.len(),
            yes == |e: InFlightView| picks(pick, e),
            no == |e: InFlightView| !picks(pick, e),
            i == all.take(k).filter(no).len(),
            in_flight_views(entries@) == all.take(k).filter(no) + all.skip(k),
            in_flight_views(out@) == all.take(k).filter(yes),
        decreases all.len() - k,
    {
        proof {
            lemma_filter_step(all, k, yes);
            lemma_filter_step(all, k, no);
            assert(in_flight_views(entries@)[i as int] == all.skip(k)[0]);
            assert(all.skip(k).drop_first() =~= all.skip(k + 1));
        }
        if is_picked(pick, &entries[i]) {
            let ghost before = in_flight_views(entries@);
            let ghost taken = in_flight_views(out@);
            let e = entries.remove(i);
            out.push(e);
            proof {
                assert(in_flight_views(entries@) =~= before.remove(i as int));
                assert(before.remove(i as int) =~= all.take(k).filter(no) + all.skip(k + 1));
                assert(in_flight_views(out@) =~= taken.push(e@));
            }
        } else {
            proof {
                assert(all.take(k).filter(no).push(all[k]) + all.skip(k + 1) =~= all.take(k).filter(
                    no,
                ) + all.skip(k));
            }
            i = i + 1;
        }
        proof {
            k = k + 1;
        }
    }
    proof {
        assert(in_flight_views(entries@).len() == all.take(k).filter(no).len() + all.skip(k).len());
        assert(all.take(k) =~= all);
        assert(all.skip(k) =~= Seq::<InFlightView>::empty());
        assert(all.filter(no) + Seq::<InFlightView>::empty() =~= all.filter(no));
    }
    out
}

/// Takes the entries that `pick` is about out of `entries`; both parts keep
/// their order.
fn extract_deferred(entries: &mut Vec<DeferredMessage>, pick: DeferredPick) -> (out: Vec<
    DeferredMessage,
>)
    ensures
        deferred_views(final(entries)@) == unpicked_deferred(deferred_views(old(entries)@), pick),
        deferred_views(out@) == picked_deferred(deferred_views(old(entries)@), pick),
{
    let ghost all = deferred_views(entries@);
    let ghost yes = |e: DeferredView| picks_deferred(pick, e);
    let ghost no = |e: DeferredView| !picks_deferred(pick, e);
    let mut out: Vec<DeferredMessage> = Vec::new();
    let mut i: usize = 0;
    let ghost mut k: int = 0;
    proof {
        assert(all.take(0) =~= Seq::<DeferredView>::empty());
        assert(all.skip(0) =~= all);
        assert(deferred_views(out@) =~= Seq::<DeferredView>::empty());
        assert(all.take(0).filter(no) + all.skip(0) =~= all);
    }
    while i < entries.len()
        invariant
            0 <= k <= all.len(),
            i <= entries@.len(),
            yes == |e: DeferredView| picks_deferred(pick, e),
            no == |e: DeferredView| !picks_deferred(pick, e),
            i == all.take(k).filter(no).len(),
            deferred_views(entries@) == all.take(k).filter(no) + all.skip(k),
            deferred_views(out@) == all.take(k).filter(yes),
        decreases all.len() - k,
    {
        proof {
            lemma_filter_step(all, k, yes);
            lemma_filter_step(all, k, no);
            assert(deferred_views(entries@)[i as int] == all.skip(k)[0]);
            assert(all.skip(k).drop_first() =~= all.skip(k + 1));
        }
        if is_picked_deferred(pick, &entries[i]) {
            let ghost before = deferred_views(entries@);
            let ghost taken = deferred_views(out@);
            let e = entries.remove(i);
            out.push(e);
            proof {
                assert(deferred_views(entries@) =~= before.remove(i as int));
                assert(before.remove(i as int) =~= all.take(k).filter(no) + all.skip(k + 1));
                assert(deferred_views(out@) =~= taken.push(e@));
            }
        } else {
            proof {
                assert(all.take(k).filter(no).push(all[k]) + all.skip(k + 1) =~= all.take(k).filter(
                    no,
                ) + all.skip(k));
            }
            i = i + 1;
        }
        proof {
            k = k + 1;
        }
    }
    proof {
        assert(deferred_views(entries@).len() == all.take(k).filter(no).len() + all.skip(
            k,
        ).len());
        assert(all.take(k) =~= all);
        assert(all.skip(k) =~= Seq::<DeferredView>::empty());
        assert(all.filter(no) + Seq::<DeferredView>::empty() =~= all.filter(no));
    }
    out
}

/// The messages of in-flight entries, each with one more attempt counted.
pub fn into_redeliveries(entries: Vec<InFlightMessage>) -> (out: Vec<Message>)
    ensures
        message_views(out@) == redeliveries(in_flight_views(entries@)),
{
    let ghost all = in_flight_views(entries@);
    let mut entries = entries;
    let mut out: Vec<Message> = Vec::new();
    let ghost mut k: int = 0;
    proof {
        assert(message_views(out@) =~= redeliveries(all.take(0)));
        assert(all.skip(0) =~= all);
    }
    while entries.len() > 0
        invariant
            0 <= k <= all.len(),
            in_flight_views(entries@) == all.skip(k),
            message_views(out@) == redeliveries(all.take(k)),
        decreases entries@.len(),
    {
        let ghost before = message_views(out@);
        let e = entries.remove(0);
        let m = bump_attempts(e.message);
        out.push(m);
        proof {
            assert(e@ == all.skip(k)[0]);
            assert(in_flight_views(entries@) =~= all.skip(k).remove(0));
            assert(all.skip(k).remove(0) =~= all.skip(k + 1));
            assert(message_views(out@) =~= before.push(m@));
            assert(redeliveries(all.take(k + 1)) =~= redeliveries(all.take(k)).push(
                bumped(all[k].message),
            ));
            k = k + 1;
        }
    }
    proof {
        assert(all.skip(k).len() == 0);
        assert(all.take(k) =~= all);
    }
    out
}

/// The messages of deferred entries.
pub fn into_messages(entries: Vec<DeferredMessage>) -> (out: Vec<Message>)
    ensures
        message_views(out@) == deferred_messages(deferred_views(entries@)),
{
    let ghost all = deferred_views(entries@);
    let mut entries = entries;
    let mut out: Vec<Message> = Vec::new();
    let ghost mut k: int = 0;
    proof {
        assert(message_views(out@) =~= deferred_messages(all.take(0)));
        assert(all.skip(0) =~= all);
    }
    while entries.len() > 0
        invariant
            0 <= k <= all.len(),
            deferred_views(entries@) == all.skip(k),
            message_views(out@) == deferred_messages(all.take(k)),
        decreases entries@.len(),
    {
        let ghost before = message_views(out@);
        let e = entries.remove(0);
        out.push(e.message);
        proof {
            assert(e@ == all.skip(k)[0]);
            assert(deferred_views(entries@) =~= all.skip(k).remove(0));
            assert(all.skip(k).remove(0) =~= all.skip(k + 1));
            assert(message_views(out@) =~= before.push(e.message@));
            assert(deferred_messages(all.take(k + 1)) =~= deferred_messages(all.take(k)).push(
                all[k].message,
            ));
            k = k + 1;
        }
    }
    proof {
        assert(all.skip(k).len() == 0);
        assert(all.take(k) =~= all);
    }
    out
}

impl MessageQueue {
    /// A queue with nothing in memory that holds up to `max_memory_size` new
    /// messages there and sends the overflow to `disk_queue`, where there is
    /// one. The records that wait on disk count as accepted messages.
    pub fn new(max_memory_size: usize, disk_queue: Option<DiskQueue>) -> (q: MessageQueue)
        ensures
            q@ == empty_queue(
                max_memory_size,
                match disk_queue {
                    Some(d) => Some(d@),
                    None => None::<DiskState>,
                },
            ),
            q@.wf(),
    {
        let waiting = match &disk_queue {
            Some(d) => d.depth(),
            None => 0,
        };
        proof {
            assert(message_views(Seq::<Message>::empty()) =~= Seq::<MessageView>::empty());
            assert(in_flight_views(Seq::<InFlightMessage>::empty()) =~= Seq::<
                InFlightView,
            >::empty());
            assert(deferred_views(Seq::<DeferredMessage>::empty()) =~= Seq::<
                DeferredView,
            >::empty());
            assert(write_views(Seq::<DiskWrite>::empty()) =~= Seq::<DiskWriteView>::empty());
        }
        MessageQueue {
            memory_queue: Vec::new(),
            max_memory_size,
            disk_queue,
            disk_writes: Vec::new(),
            in_flight: Vec::new(),
            deferred: Vec::new(),
            total_messages: waiting,
            total_bytes: 0,
            requeued: 0,
            timed_out: 0,
        }
    }

    /// A queue with nothing in memory that takes over the disk backing
    /// `disk_queue` of another queue, with the records `writes` that are
    /// still to be written to it.
    pub fn inheriting(
        max_memory_size: usize,
        disk_queue: Option<DiskQueue>,
        writes: Vec<DiskWrite>,
    ) -> (q: MessageQueue)
        ensures
            q@ == inherited_queue(max_memory_size, disk_view(disk_queue), write_views(writes@)),
            q@.wf(),
    {
        let mut q = MessageQueue::new(max_memory_size, disk_queue);
        q.disk_writes = writes;
        q
    }

    /// Hands over the disk backing of the queue, with the records that are
    /// still to be written to it, and goes on with an empty backing of the
    /// same limits.
    pub fn hand_over_backing(&mut self) -> (out: (Option<DiskQueue>, Vec<DiskWrite>))
        ensures
            disk_view(out.0) == old(self)@.disk,
            write_views(out.1@) == old(self)@.spill,
            final(self)@ == old(self)@.after_hand_over(),
            old(self)@.wf() ==> final(self)@.wf(),
    {
        let mut writes: Vec<DiskWrite> = Vec::new();
        std::mem::swap(&mut writes, &mut self.disk_writes);
        let fresh = match &self.disk_queue {
            Some(d) => Some(d.fresh()),
            None => None,
        };
        let mut disk = fresh;
        std::mem::swap(&mut disk, &mut self.disk_queue);
        proof {
            assert(write_views(self.disk_writes@) =~= Seq::<DiskWriteView>::empty());
        }
        (disk, writes)
    }

    /// Puts a new message into the queue: into memory while there is room,
    /// else onto disk.
    ///
    /// With memory full and no disk backing the result is a queue error;
    /// with a disk backing that refuses the message it is the backing's
    /// error. Then nothing changes.
    pub fn put(&mut self, message: Message) -> (res: Result<(), NsqError>)
        ensures
            final(self)@ == old(self)@.after_put(message@),
            res is Ok <==> old(self)@.accepts(message@),
            res is Err ==> res->Err_0 is Queue || res->Err_0 is Validation,
            old(self)@.countable() && !old(self)@.fits_memory() && old(self)@.disk is None
                ==> queue_error_with(res, "Memory queue full and no disk queue available"@),
            old(self)@.wf() ==> final(self)@.wf(),
    {
        let size = message.size();
        if self.total_messages == u64::MAX {
            return Err(NsqError::Queue(String::from_str("Message counter exhausted")));
        }
        if self.memory_queue.len() < self.max_memory_size {
            self.total_messages = self.total_messages.saturating_add(1);
            self.total_bytes = self.total_bytes.saturating_add(size as u64);
            self.memory_queue.push(message);
            proof {
                assert(message_views(self.memory_queue@) =~= old(self)@.pending.push(message@));
            }
            return Ok(());
        }
        let taken = self.disk_queue.take();
        match taken {
            None => Err(
                NsqError::Queue(
                    String::from_str("Memory queue full and no disk queue available"),
                ),
            ),
            Some(mut disk) => {
                let bytes = message.to_bytes();
                let planned = disk.put(bytes.as_slice());
                self.disk_queue = Some(disk);
                match planned {
                    Ok(write) => {
                        self.disk_writes.push(write);
                        self.total_messages = self.total_messages.saturating_add(1);
                        self.total_bytes = self.total_bytes.saturating_add(size as u64);
                        proof {
                            assert(write_views(self.disk_writes@) =~= old(self)@.spill.push(
                                DiskWriteView {
                                    file_num: write.file_num,
                                    offset: write.offset,
                                    record: write.record@,
                                },
                            ));
                        }
                        Ok(())
                    },
                    Err(e) => Err(e),
                }
            },
        }
    }

    /// Puts a message at the tail of memory whatever the limit, and counts
    /// it: for a message that another queue of the same topic held before.
    pub fn adopt(&mut self, message: Message) -> (res: Result<(), NsqError>)
        ensures
            final(self)@ == old(self)@.after_adopt(message@),
            res is Ok <==> old(self)@.countable(),
            res is Err ==> res->Err_0 is Queue,
            old(self)@.wf() ==> final(self)@.wf(),
    {
        if self.total_messages == u64::MAX {
            return Err(NsqError::Queue(String::from_str("Message counter exhausted")));
        }
        let size = message.size();
        self.total_messages = self.total_messages + 1;
        self.total_bytes = self.total_bytes.saturating_add(size as u64);
        self.memory_queue.push(message);
        proof {
            assert(message_views(self.memory_queue@) =~= old(self)@.pending.push(message@));
        }
        Ok(())
    }

    /// Takes the oldest pending message out of memory.
    pub fn get(&mut self) -> (res: Result<Option<Message>, NsqError>)
        ensures
            final(self)@ == old(self)@.after_get(),
            res is Ok,
            match res->Ok_0 {
                Some(m) => old(self)@.pending.len() > 0 && m@ == old(self)@.pending[0],
                None => old(self)@.pending.len() == 0,
            },
            old(self)@.wf() ==> final(self)@.wf(),
    {
        if self.memory_queue.len() > 0 {
            let m = self.memory_queue.remove(0);
            proof {
                assert(message_views(self.memory_queue@) =~= old(self)@.pending.drop_first());
            }
            Ok(Some(m))
        } else {
            Ok(None)
        }
    }

    /// Records that `message` was handed to `client_id` just now.
    pub fn mark_in_flight(&mut self, message: Message, client_id: ClientId, timeout: u64) -> (res:
        Result<(), NsqError>)
        ensures
            res is Ok,
            exists|now: u64| final(self)@ == old(self)@.after_mark(message@, client_id, timeout, now),
            old(self)@.wf() ==> final(self)@.wf(),
    {
        self.mark_in_flight_at(message, client_id, timeout, now_millis())
    }

    /// Records that `message` was handed to `client_id` at `now`. An earlier
    /// in-flight entry of the same message is replaced.
    pub fn mark_in_flight_at(
        &mut self,
        message: Message,
        client_id: ClientId,
        timeout: u64,
        now: u64,
    ) -> (res: Result<(), NsqError>)
        ensures
            res is Ok,
            final(self)@ == old(self)@.after_mark(message@, client_id, timeout, now),
            old(self)@.wf() ==> final(self)@.wf(),
    {
        proof {
            if old(self)@.wf() {
                old(self)@.lemma_wf_kept(
                    message@,
                    MessageId { hi: 0, lo: 0 },
                    client_id,
                    timeout,
                    now,
                    Pick::Expired(0),
                    Seq::empty(),
                    Seq::empty(),
                );
            }
        }
        let ghost m = message@;
        let replaced = extract(&mut self.in_flight, Pick::Id(message.id));
        let ghost before = in_flight_views(self.in_flight@);
        let entry = InFlightMessage::new_at(message, client_id, timeout, now);
        self.in_flight.push(entry);
        proof {
            assert(in_flight_views(self.in_flight@) =~= before.push(entry@));
        }
        Ok(())
    }

    /// Acknowledges message `message_id`: its in-flight entry is dropped. A
    /// message that is not in flight is a queue error.
    pub fn finish(&mut self, message_id: MessageId) -> (res: Result<(), NsqError>)
        ensures
            final(self)@ == old(self)@.after_finish(message_id),
            res is Ok <==> old(self)@.is_in_flight(message_id),
            !old(self)@.is_in_flight(message_id) ==> queue_error_with(
                res,
                "Message not found in flight"@,
            ) && final(self)@ == old(self)@,
            old(self)@.wf() ==> final(self)@.wf(),
            old(self)@.wf() && res is Ok ==> old(self)@.moved_one(final(self)@),
    {
        proof {
            if old(self)@.wf() {
                old(self)@.lemma_wf_kept(
                    blank_message(),
                    message_id,
                    ClientId { hi: 0, lo: 0 },
                    0,
                    0,
                    Pick::Expired(0),
                    Seq::empty(),
                    Seq::empty(),
                );
                if old(self)@.is_in_flight(message_id) {
                    old(self)@.lemma_one_moves(message_id, 0, 0);
                }
            }
        }
        let done = extract(&mut self.in_flight, Pick::Id(message_id));
        proof {
            if !old(self)@.is_in_flight(message_id) {
                lemma_none_picked(old(self)@.in_flight, Pick::Id(message_id));
            }
        }
        if done.len() > 0 {
            Ok(())
        } else {
            Err(NsqError::Queue(String::from_str("Message not found in flight")))
        }
    }

    /// Hands the in-flight message `message_id` back, with `delay` counted
    /// from now.
    pub fn requeue(&mut self, message_id: MessageId, delay: u64) -> (res: Result<(), NsqError>)
        ensures
            res is Ok <==> old(self)@.is_in_flight(message_id),
            exists|now: u64| final(self)@ == old(self)@.after_requeue(message_id, delay, now),
            old(self)@.wf() ==> final(self)@.wf(),
    {
        self.requeue_at(message_id, delay, now_millis())
    }

    /// Hands the in-flight message `message_id` back at `now`.
    ///
    /// Without delay the message goes to the tail of memory; with a delay it
    /// is deferred until `now + delay`. Either way it counts one more
    /// attempt. A message that is not in flight is a queue error and changes
    /// nothing.
    pub fn requeue_at(&mut self, message_id: MessageId, delay: u64, now: u64) -> (res: Result<
        (),
        NsqError,
    >)
        ensures
            final(self)@ == old(self)@.after_requeue(message_id, delay, now),
            res is Ok <==> old(self)@.is_in_flight(message_id),
            !old(self)@.is_in_flight(message_id) ==> queue_error_with(
                res,
                "Message not found in flight"@,
            ),
            old(self)@.wf() ==> final(self)@.wf(),
            old(self)@.wf() && res is Ok ==> old(self)@.moved_one(final(self)@),
            old(self)@.wf() && res is Ok && delay == 0 ==> final(self)@.pending.len()
                == old(self)@.pending.len() + 1,
            old(self)@.wf() && res is Ok && delay > 0 && !old(self)@.is_deferred(message_id)
                ==> final(self)@.deferred.len() == old(self)@.deferred.len() + 1,
    {
        proof {
            if old(self)@.wf() {
                old(self)@.lemma_wf_kept(
                    blank_message(),
                    message_id,
                    ClientId { hi: 0, lo: 0 },
                    delay,
                    now,
                    Pick::Expired(0),
                    Seq::empty(),
                    Seq::empty(),
                );
                if old(self)@.is_in_flight(message_id) {
                    old(self)@.lemma_one_moves(message_id, delay, now);
                }
            }
        }
        if delay > 0 {
            return self.defer_at(message_id, delay, now);
        }
        let back = extract(&mut self.in_flight, Pick::Id(message_id));
        proof {
            if !old(self)@.is_in_flight(message_id) {
                lemma_none_picked(old(self)@.in_flight, Pick::Id(message_id));
            }
        }
        if back.len() == 0 {
            return Err(NsqError::Queue(String::from_str("Message not found in flight")));
        }
        let mut back = back;
        let first = back.remove(0);
        let m = bump_attempts(first.message);
        let ghost before = message_views(self.memory_queue@);
        self.memory_queue.push(m);
        self.requeued = self.requeued.saturating_add(1);
        proof {
            assert(message_views(self.memory_queue@) =~= before.push(m@));
        }
        Ok(())
    }

    /// Defers the in-flight message `message_id` by `delay`, counted from
    /// now.
    pub fn defer(&mut self, message_id: MessageId, delay: u64) -> (res: Result<(), NsqError>)
        ensures
            res is Ok <==> old(self)@.is_in_flight(message_id),
            exists|now: u64| final(self)@ == old(self)@.after_defer(message_id, delay, now),
            old(self)@.wf() ==> final(self)@.wf(),
    {
        self.defer_at(message_id, delay, now_millis())
    }

    /// Moves the in-flight message `message_id` to the deferred ones, ready
    /// at `now + delay`. It counts one more attempt. A message that is not in
    /// flight is a queue error and changes nothing.
    pub fn defer_at(&mut self, message_id: MessageId, delay: u64, now: u64) -> (res: Result<
        (),
        NsqError,
    >)
        ensures
            final(self)@ == old(self)@.after_defer(message_id, delay, now),
            res is Ok <==> old(self)@.is_in_flight(message_id),
            !old(self)@.is_in_flight(message_id) ==> queue_error_with(
                res,
                "Message not found in flight"@,
            ),
            old(self)@.wf() ==> final(self)@.wf(),
            old(self)@.wf() && res is Ok ==> old(self)@.moved_one(final(self)@),
            old(self)@.wf() && res is Ok && !old(self)@.is_deferred(message_id) ==> final(self)@
                .deferred.len() == old(self)@.deferred.len() + 1,
    {
        proof {
            if old(self)@.wf() {
                old(self)@.lemma_wf_kept(
                    blank_message(),
                    message_id,
                    ClientId { hi: 0, lo: 0 },
                    delay,
                    now,
                    Pick::Expired(0),
                    Seq::empty(),
                    Seq::empty(),
                );
                if old(self)@.is_in_flight(message_id) {
                    old(self)@.lemma_one_moves(message_id, delay, now);
                }
            }
        }
        let back = extract(&mut self.in_flight, Pick::Id(message_id));
        proof {
            if !old(self)@.is_in_flight(message_id) {
                lemma_none_picked(old(self)@.in_flight, Pick::Id(message_id));
            }
        }
        if back.len() == 0 {
            return Err(NsqError::Queue(String::from_str("Message not found in flight")));
        }
        let mut back = back;
        let first = back.remove(0);
        let m = bump_attempts(first.message);
        let replaced = extract_deferred(&mut self.deferred, DeferredPick::Id(message_id));
        let ghost before = deferred_views(self.deferred@);
        let entry = DeferredMessage { message: m, ready_at: now.saturating_add(delay) };
        self.deferred.push(entry);
        self.requeued = self.requeued.saturating_add(1);
        proof {
            assert(deferred_views(self.deferred@) =~= before.push(entry@));
        }
        Ok(())
    }

    /// Accepts the new message `message` for delivery at `ready_at`. An
    /// earlier deferred entry of the same message is replaced.
    pub fn put_deferred_at(&mut self, message: Message, ready_at: u64) -> (res: Result<
        (),
        NsqError,
    >)
        ensures
            final(self)@ == old(self)@.after_put_deferred(message@, ready_at),
            res is Ok <==> old(self)@.countable(),
            res is Err ==> res->Err_0 is Queue,
            old(self)@.wf() ==> final(self)@.wf(),
    {
        proof {
            if old(self)@.wf() {
                old(self)@.lemma_wf_kept(
                    message@,
                    MessageId { hi: 0, lo: 0 },
                    ClientId { hi: 0, lo: 0 },
                    0,
                    ready_at,
                    Pick::Expired(0),
                    Seq::empty(),
                    Seq::empty(),
                );
            }
        }
        let size = message.size();
        if self.total_messages == u64::MAX {
            return Err(NsqError::Queue(String::from_str("Message counter exhausted")));
        }
        let replaced = extract_deferred(&mut self.deferred, DeferredPick::Id(message.id));
        let ghost before = deferred_views(self.deferred@);
        let entry = DeferredMessage { message, ready_at };
        self.deferred.push(entry);
        self.total_messages = self.total_messages.saturating_add(1);
        self.total_bytes = self.total_bytes.saturating_add(size as u64);
        proof {
            assert(deferred_views(self.deferred@) =~= before.push(entry@));
        }
        Ok(())
    }

    /// Takes out the deferred messages that are ready now.
    pub fn process_deferred(&mut self) -> (res: Result<Vec<Message>, NsqError>)
        ensures
            res is Ok,
            exists|now: u64|
                final(self)@ == old(self)@.after_process_deferred(now) && message_views(
                    res->Ok_0@,
                ) == old(self)@.ready(now),
            old(self)@.wf() ==> final(self)@.wf(),
    {
        let now = now_millis();
        let res = self.process_deferred_at(now);
        proof {
            assert(final(self)@ == old(self)@.after_process_deferred(now) && message_views(
                res->Ok_0@,
            ) == old(self)@.ready(now));
        }
        res
    }

    /// Takes out the deferred messages whose time has come at `now`, in the
    /// order in which they were deferred.
    pub fn process_deferred_at(&mut self, now: u64) -> (res: Result<Vec<Message>, NsqError>)
        ensures
            res is Ok,
            final(self)@ == old(self)@.after_process_deferred(now),
            message_views(res->Ok_0@) == old(self)@.ready(now),
            old(self)@.wf() ==> final(self)@.wf(),
    {
        proof {
            if old(self)@.wf() {
                old(self)@.lemma_wf_kept(
                    blank_message(),
                    MessageId { hi: 0, lo: 0 },
                    ClientId { hi: 0, lo: 0 },
                    0,
                    now,
                    Pick::Expired(0),
                    Seq::empty(),
                    Seq::empty(),
                );
            }
        }
        let ready = extract_deferred(&mut self.deferred, DeferredPick::Ready(now));
        Ok(into_messages(ready))
    }

    /// Takes out the in-flight messages that have timed out by now.
    pub fn cleanup_timeouts(&mut self) -> (res: Result<Vec<Message>, NsqError>)
        ensures
            res is Ok,
            exists|now: u64|
                final(self)@ == old(self)@.after_cleanup(Pick::Expired(now)) && message_views(
                    res->Ok_0@,
                ) == redeliveries(picked(old(self)@.in_flight, Pick::Expired(now))),
            old(self)@.wf() ==> final(self)@.wf(),
    {
        let now = now_millis();
        let res = self.cleanup_timeouts_at(now);
        proof {
            assert(final(self)@ == old(self)@.after_cleanup(Pick::Expired(now)) && message_views(
                res->Ok_0@,
            ) == redeliveries(picked(old(self)@.in_flight, Pick::Expired(now))));
        }
        res
    }

    /// Takes out the in-flight messages that have timed out at `now`, each
    /// with one more attempt counted, in the order in which they went in
    /// flight.
    pub fn cleanup_timeouts_at(&mut self, now: u64) -> (res: Result<Vec<Message>, NsqError>)
        ensures
            res is Ok,
            final(self)@ == old(self)@.after_cleanup(Pick::Expired(now)),
            message_views(res->Ok_0@) == redeliveries(
                picked(old(self)@.in_flight, Pick::Expired(now)),
            ),
            old(self)@.wf() ==> final(self)@.wf(),
    {
        proof {
            if old(self)@.wf() {
                old(self)@.lemma_wf_kept(
                    blank_message(),
                    MessageId { hi: 0, lo: 0 },
                    ClientId { hi: 0, lo: 0 },
                    0,
                    0,
                    Pick::Expired(now),
                    Seq::empty(),
                    Seq::empty(),
                );
            }
        }
        let expired = extract(&mut self.in_flight, Pick::Expired(now));
        self.timed_out = self.timed_out.saturating_add(expired.len() as u64);
        Ok(into_redeliveries(expired))
    }

    /// Takes out the in-flight messages held by `client_id`, each with one
    /// more attempt counted, in the order in which they went in flight.
    pub fn release_client(&mut self, client_id: ClientId) -> (out: Vec<Message>)
        ensures
            final(self)@ == old(self)@.after_release(client_id),
            message_views(out@) == redeliveries(
                picked(old(self)@.in_flight, Pick::Client(client_id)),
            ),
            old(self)@.wf() ==> final(self)@.wf(),
    {
        proof {
            if old(self)@.wf() {
                old(self)@.lemma_wf_kept(
                    blank_message(),
                    MessageId { hi: 0, lo: 0 },
                    client_id,
                    0,
                    0,
                    Pick::Expired(0),
                    Seq::empty(),
                    Seq::empty(),
                );
            }
        }
        let held = extract(&mut self.in_flight, Pick::Client(client_id));
        self.requeued = self.requeued.saturating_add(held.len() as u64);
        into_redeliveries(held)
    }

    /// Starts the timeout of the in-flight message `message_id` anew at
    /// `now`. A message that is not in flight is a queue error and changes
    /// nothing.
    pub fn touch_at(&mut self, message_id: MessageId, now: u64) -> (res: Result<(), NsqError>)
        ensures
            final(self)@ == old(self)@.after_touch(message_id, now),
            res is Ok <==> old(self)@.is_in_flight(message_id),
            !old(self)@.is_in_flight(message_id) ==> queue_error_with(
                res,
                "Message not found in flight"@,
            ),
            old(self)@.wf() ==> final(self)@.wf(),
    {
        proof {
            if old(self)@.wf() {
                old(self)@.lemma_wf_kept(
                    blank_message(),
                    message_id,
                    ClientId { hi: 0, lo: 0 },
                    0,
                    now,
                    Pick::Expired(0),
                    Seq::empty(),
                    Seq::empty(),
                );
            }
        }
        let ghost all = in_flight_views(self.in_flight@);
        let ghost yes = |e: InFlightView| picks(Pick::Id(message_id), e);
        let mut found = false;
        let mut i: usize = 0;
        let n = self.in_flight.len();
        proof {
            assert(all.take(0) =~= Seq::<InFlightView>::empty());
            assert(touched(all.take(0), message_id, now) + all.skip(0) =~= all);
        }
        while i < n
            invariant
                i <= n,
                n == all.len(),
                n == self.in_flight@.len(),
                yes == |e: InFlightView| picks(Pick::Id(message_id), e),
                in_flight_views(self.in_flight@) == touched(all.take(i as int), message_id, now)
                    + all.skip(i as int),
                found == (all.take(i as int).filter(yes).len() > 0),
                self.memory_queue == old(self).memory_queue,
                self.deferred == old(self).deferred,
                self.disk_queue == old(self).disk_queue,
                self.disk_writes == old(self).disk_writes,
                self.max_memory_size == old(self).max_memory_size,
                self.total_messages == old(self).total_messages,
                self.total_bytes == old(self).total_bytes,
                self.requeued == old(self).requeued,
                self.timed_out == old(self).timed_out,
            decreases n - i,
        {
            let ghost before = in_flight_views(self.in_flight@);
            proof {
                lemma_filter_step(all, i as int, yes);
                assert(before[i as int] == all.skip(i as int)[0]);
            }
            if self.in_flight[i].message.id == message_id {
                let mut e = self.in_flight.remove(i);
                e.start_time = now;
                self.in_flight.insert(i, e);
                found = true;
                proof {
                    assert(in_flight_views(self.in_flight@) =~= before.update(i as int, e@));
                }
            }
            proof {
                let next = touched(all.take(i + 1), message_id, now) + all.skip(i + 1);
                assert(in_flight_views(self.in_flight@) =~= next);
            }
            i = i + 1;
        }
        proof {
            assert(all.take(n as int) =~= all);
            assert(touched(all, message_id, now) + all.skip(n as int) =~= touched(
                all,
                message_id,
                now,
            ));
        }
        if found {
            Ok(())
        } else {
            Err(NsqError::Queue(String::from_str("Message not found in flight")))
        }
    }

    /// Puts `messages` back at the tail of memory, in order. Messages that
    /// the queue held before are not subject to its memory limit.
    pub fn restore(&mut self, messages: Vec<Message>)
        ensures
            final(self)@ == old(self)@.after_restore(message_views(messages@)),
            old(self)@.wf() ==> final(self)@.wf(),
    {
        let mut messages = messages;
        let ghost add = message_views(messages@);
        self.memory_queue.append(&mut messages);
        proof {
            assert(message_views(self.memory_queue@) =~= old(self)@.pending + add);
        }
    }

    /// Drops every pending, in-flight and deferred message, and skips what
    /// waits on disk.
    pub fn clear(&mut self)
        ensures
            final(self)@ == old(self)@.after_clear(),
            old(self)@.wf() ==> final(self)@.wf(),
    {
        self.memory_queue.clear();
        self.in_flight.clear();
        self.deferred.clear();
        let taken = self.disk_queue.take();
        match taken {
            Some(mut disk) => {
                disk.skip_all();
                self.disk_queue = Some(disk);
            },
            None => {},
        }
        proof {
            assert(message_views(self.memory_queue@) =~= Seq::<MessageView>::empty());
            assert(in_flight_views(self.in_flight@) =~= Seq::<InFlightView>::empty());
            assert(deferred_views(self.deferred@) =~= Seq::<DeferredView>::empty());
        }
    }

    /// Takes a record read back from disk into memory. A record that is no
    /// message is a protocol error and changes nothing.
    pub fn load_record(&mut self, record: &[u8]) -> (res: Result<(), NsqError>)
        ensures
            final(self)@ == old(self)@.after_load(record@),
            res is Ok <==> parse_message(record@) is Some,
            res is Err ==> res->Err_0 is Protocol,
            old(self)@.wf() ==> final(self)@.wf(),
    {
        match Message::from_bytes(record) {
            Ok(m) => {
                self.memory_queue.push(m);
                proof {
                    assert(message_views(self.memory_queue@) =~= old(self)@.pending.push(m@));
                }
                Ok(())
            },
            Err(_) => Err(NsqError::Protocol(String::from_str("Message too short"))),
        }
    }

    /// Reads the next record back from disk, out of `segment`, the bytes of
    /// the segment at the read position's file. Records that wait to be
    /// written must be on disk before. The result tells whether a message
    /// came back; a record that is no message is a protocol error.
    pub fn read_disk(&mut self, segment: &[u8]) -> (res: Result<bool, NsqError>)
        ensures
            final(self)@ == old(self)@.after_read_disk(segment@),
            read_gave(res, old(self)@.read_back(segment@)),
            res == Ok::<bool, NsqError>(true) ==> final(self)@.pending.len() == old(
                self,
            )@.pending.len() + 1,
            old(self)@.wf() ==> final(self)@.wf(),
    {
        let taken = self.disk_queue.take();
        match taken {
            None => Ok(false),
            Some(mut disk) => {
                let read = disk.get(segment);
                self.disk_queue = Some(disk);
                match read {
                    DiskRead::Record(data) => match self.load_record(data.as_slice()) {
                        Ok(()) => Ok(true),
                        Err(e) => Err(e),
                    },
                    _ => Ok(false),
                }
            },
        }
    }

    /// Whether the queue takes `n` more new messages of at most `big` bytes
    /// on the wire each.
    pub fn has_room(&self, n: usize, big: usize) -> (yes: bool)
        ensures
            yes == self@.has_room(n as nat, big as nat),
    {
        if n as u64 > u64::MAX - self.total_messages {
            return false;
        }
        let used = self.memory_queue.len();
        if used <= self.max_memory_size && n <= self.max_memory_size - used {
            return true;
        }
        match &self.disk_queue {
            Some(disk) => disk.has_room(n, big),
            None => false,
        }
    }

    /// Whether the queue takes the new message `message`.
    pub fn accepts(&self, message: &Message) -> (yes: bool)
        ensures
            yes == self@.accepts(message@),
    {
        if self.total_messages == u64::MAX {
            return false;
        }
        if self.memory_queue.len() < self.max_memory_size {
            return true;
        }
        match &self.disk_queue {
            None => false,
            Some(disk) => {
                let size = message.size();
                if message.body.len() > usize::MAX - 26 {
                    false
                } else {
                    disk.accepts(size)
                }
            },
        }
    }

    /// The disk backing of the queue, if it has one.
    pub fn disk(&self) -> (disk: &Option<DiskQueue>)
        ensures
            self@.disk == match *disk {
                Some(d) => Some(d@),
                None => None::<DiskState>,
            },
    {
        &self.disk_queue
    }

    /// Hands over the records that wait to be appended to the disk backing,
    /// oldest first.
    pub fn take_disk_writes(&mut self) -> (writes: Vec<DiskWrite>)
        ensures
            write_views(writes@) == old(self)@.spill,
            final(self)@ == (QueueView { spill: Seq::empty(), ..old(self)@ }),
            old(self)@.wf() ==> final(self)@.wf(),
    {
        let mut writes: Vec<DiskWrite> = Vec::new();
        std::mem::swap(&mut writes, &mut self.disk_writes);
        proof {
            assert(write_views(self.disk_writes@) =~= Seq::<DiskWriteView>::empty());
        }
        writes
    }

    /// Gives up records that were planned for disk and could not be
    /// written: the `lost` records that were handed over, of which the first
    /// was to go to `offset` in segment `file_num`, and those that still
    /// wait to be handed over, which were to follow them. The result tells
    /// whether that could be; if not, nothing changes.
    pub fn give_up_disk_writes(&mut self, file_num: u64, offset: u64, lost: u64) -> (done: bool)
        ensures
            done == old(self)@.can_give_up(file_num, offset, lost),
            final(self)@ == old(self)@.after_give_up(file_num, offset, lost),
            old(self)@.wf() ==> final(self)@.wf(),
    {
        let waiting = self.disk_writes.len() as u64;
        if lost > u64::MAX - waiting {
            return false;
        }
        let taken = self.disk_queue.take();
        match taken {
            None => false,
            Some(mut disk) => {
                let done = disk.rewind(file_num, offset, lost + waiting);
                self.disk_queue = Some(disk);
                if done {
                    self.disk_writes = Vec::new();
                    proof {
                        assert(write_views(self.disk_writes@) =~= Seq::<DiskWriteView>::empty());
                    }
                }
                done
            },
        }
    }

    /// The counters of the queue.
    pub fn stats(&self) -> (stats: MessageStats)
        ensures
            stats == self@.stats(),
            stats.messages_in_flight == self@.in_flight.len(),
            stats.messages_deferred == self@.deferred.len(),
    {
        MessageStats {
            total_messages: self.total_messages,
            total_bytes: self.total_bytes,
            messages_in_flight: self.in_flight.len() as u64,
            messages_deferred: self.deferred.len() as u64,
            messages_requeued: self.requeued,
            messages_timed_out: self.timed_out,
        }
    }

    /// The number of the segment to read next from disk: memory is drained
    /// first, so there is one exactly when nothing is pending in memory and
    /// records wait on disk.
    pub fn next_disk_read(&self) -> (res: Option<u64>)
        ensures
            res == self@.next_read(),
    {
        if self.memory_queue.len() > 0 {
            return None;
        }
        match &self.disk_queue {
            Some(d) => if d.depth() > 0 {
                Some(d.read_file_num())
            } else {
                None
            },
            None => None,
        }
    }

    /// Whether the queue holds no message in any state.
    pub fn holds_nothing(&self) -> (yes: bool)
        ensures
            yes == (self@.held() == 0),
    {
        self.memory_queue.len() == 0 && self.in_flight.len() == 0 && self.deferred.len() == 0
            && self.backend_depth() == 0
    }

    /// The number of messages pending in memory.
    pub fn depth(&self) -> (n: usize)
        ensures
            n == self@.pending.len(),
    {
        self.memory_queue.len()
    }

    /// The number of messages in flight.
    pub fn in_flight_count(&self) -> (n: usize)
        ensures
            n == self@.in_flight.len(),
    {
        self.in_flight.len()
    }

    /// The number of deferred messages.
    pub fn deferred_count(&self) -> (n: usize)
        ensures
            n == self@.deferred.len(),
    {
        self.deferred.len()
    }

    /// The number of records waiting on disk.
    pub fn backend_depth(&self) -> (n: u64)
        ensures
            n == self@.backend_depth(),
    {
        match &self.disk_queue {
            Some(d) => d.depth(),
            None => 0,
        }
    }

    /// The number of messages that `client_id` holds in flight.
    pub fn in_flight_for(&self, client_id: ClientId) -> (n: usize)
        ensures
            n == picked(self@.in_flight, Pick::Client(client_id)).len(),
    {
        let ghost all = in_flight_views(self.in_flight@);
        let ghost pred = |e: InFlightView| picks(Pick::Client(client_id), e);
        let len = self.in_flight.len();
        let mut i: usize = 0;
        let mut n: usize = 0;
        proof {
            assert(all.take(0) =~= Seq::<InFlightView>::empty());
        }
        while i < len
            invariant
                i <= len,
                len == all.len(),
                all == in_flight_views(self.in_flight@),
                pred == |e: InFlightView| picks(Pick::Client(client_id), e),
                n == all.take(i as int).filter(pred).len(),
                n <= i,
            decreases len - i,
        {
            proof {
                lemma_filter_step(all, i as int, pred);
            }
            if self.in_flight[i].client_id == client_id {
                n = n + 1;
            }
            i = i + 1;
        }
        proof {
            assert(all.take(len as int) =~= all);
        }
        n
    }

    /// Whether message `message_id` is in flight.
    pub fn is_in_flight(&self, message_id: MessageId) -> (yes: bool)
        ensures
            yes == self@.is_in_flight(message_id),
    {
        let ghost all = in_flight_views(self.in_flight@);
        let ghost pred = |e: InFlightView| picks(Pick::Id(message_id), e);
        let n = self.in_flight.len();
        let mut i: usize = 0;
        let mut found = false;
        proof {
            assert(all.take(0) =~= Seq::<InFlightView>::empty());
        }
        while i < n
            invariant
                i <= n,
                n == all.len(),
                all == in_flight_views(self.in_flight@),
                pred == |e: InFlightView| picks(Pick::Id(message_id), e),
                found == (all.take(i as int).filter(pred).len() > 0),
            decreases n - i,
        {
            proof {
                lemma_filter_step(all, i as int, pred);
            }
            if self.in_flight[i].message.id == message_id {
                found = true;
            }
            i = i + 1;
        }
        proof {
            assert(all.take(n as int) =~= all);
        }
        found
    }
}

impl QueueView {
    /// How the number of held messages changes: putting a message adds at
    /// most one and counts it; every other operation adds none.
    pub proof fn lemma_held(self, m: MessageView, id: MessageId, client: ClientId, delay: u64, now: u64)
        ensures
            self.after_put(m).held() - self.held() == self.after_put(m).total_messages
                - self.total_messages,
            self.after_put_deferred(m, now).held() - self.held() <= self.after_put_deferred(
                m,
                now,
            ).total_messages - self.total_messages,
            self.after_get().held() <= self.held(),
            self.pending.len() > 0 ==> self.after_get().after_mark(
                self.pending[0],
                client,
                delay,
                now,
            ).held() <= self.held(),
            self.after_finish(id).held() <= self.held(),
            self.after_requeue(id, delay, now).held() <= self.held(),
            self.after_defer(id, delay, now).held() <= self.held(),
            self.after_touch(id, now).held() == self.held(),
            self.after_process_deferred(now).after_restore(self.ready(now)).held() == self.held(),
            self.after_cleanup(Pick::Expired(now)).after_restore(
                redeliveries(picked(self.in_flight, Pick::Expired(now))),
            ).held() == self.held(),
            self.after_release(client).after_restore(
                redeliveries(picked(self.in_flight, Pick::Client(client))),
            ).held() == self.held(),
            self.after_clear().held() == 0,
            self.after_put(m).total_messages >= self.total_messages,
            self.after_adopt(m).held() - self.held() == self.after_adopt(m).total_messages
                - self.total_messages,
            self.after_adopt(m).total_messages >= self.total_messages,
            self.after_put_deferred(m, now).total_messages >= self.total_messages,
            self.after_get().total_messages == self.total_messages,
    {
        lemma_pick_lengths(self.in_flight, Pick::Id(id));
        lemma_pick_lengths(self.in_flight, Pick::Expired(now));
        lemma_pick_lengths(self.in_flight, Pick::Client(client));
        lemma_deferred_pick_lengths(self.deferred, DeferredPick::Id(id));
        lemma_deferred_pick_lengths(self.deferred, DeferredPick::Id(m.id));
        lemma_deferred_pick_lengths(self.deferred, DeferredPick::Ready(now));
        if self.pending.len() > 0 {
            lemma_pick_lengths(self.after_get().in_flight, Pick::Id(self.pending[0].id));
        }
    }
}

impl QueueView {
    /// A queue that adopts `ms` holds and counts them on top of what it held
    /// and counted, as long as the count fits the counter.
    pub proof fn lemma_adopt_all(self, ms: Seq<MessageView>)
        requires
            self.total_messages + ms.len() <= u64::MAX,
        ensures
            self.after_adopt_all(ms).pending == self.pending + ms,
            self.after_adopt_all(ms).held() == self.held() + ms.len(),
            self.after_adopt_all(ms).total_messages == self.total_messages + ms.len(),
            self.after_adopt_all(ms).in_flight == self.in_flight,
            self.after_adopt_all(ms).deferred == self.deferred,
            self.after_adopt_all(ms).disk == self.disk,
            self.after_adopt_all(ms).limit == self.limit,
            self.after_adopt_all(ms).spill == self.spill,
        decreases ms.len(),
    {
        if ms.len() == 0 {
            assert(self.pending + ms =~= self.pending);
        } else {
            self.lemma_adopt_all(ms.drop_last());
            assert(self.pending + ms =~= (self.pending + ms.drop_last()).push(ms.last()));
        }
    }
}

impl QueueView {
    /// A queue with room for `n` messages takes one of them and then has
    /// room for the rest.
    pub proof fn lemma_room(self, n: nat, big: nat, m: MessageView)
        requires
            self.has_room(n, big),
            n >= 1,
            message_size(m) <= big,
        ensures
            self.accepts(m),
            self.after_put(m).has_room((n - 1) as nat, big),
    {
    }
}

/// Whether one of the messages `s` has the identifier `id`.
pub open spec fn has_message(s: Seq<MessageView>, id: MessageId) -> bool {
    exists|i: int| 0 <= i < s.len() && (#[trigger] s[i]).id == id
}

/// Whether one of the in-flight entries `s` is of the message `id`.
pub open spec fn has_entry(s: Seq<InFlightView>, id: MessageId) -> bool {
    exists|i: int| 0 <= i < s.len() && (#[trigger] s[i]).message.id == id
}

/// Whether one of the deferred entries `s` is of the message `id`.
pub open spec fn has_deferred(s: Seq<DeferredView>, id: MessageId) -> bool {
    exists|i: int| 0 <= i < s.len() && (#[trigger] s[i]).message.id == id
}

impl QueueView {
    /// Whether the queue holds the message `id` in memory: pending, in
    /// flight or deferred.
    pub open spec fn holds(self, id: MessageId) -> bool {
        has_message(self.pending, id) || has_entry(self.in_flight, id) || has_deferred(
            self.deferred,
            id,
        )
    }
}

/// A pick splits the in-flight entries without losing a message: each is
/// among those that stay or among those that are taken out for redelivery.
pub proof fn lemma_split_entries(s: Seq<InFlightView>, pick: Pick, id: MessageId)
    requires
        has_entry(s, id),
    ensures
        has_entry(unpicked(s, pick), id) || has_message(redeliveries(picked(s, pick)), id),
        has_entry(unpicked(s, pick), id) || has_entry(picked(s, pick), id),
{
    let i = choose|i: int| 0 <= i < s.len() && (#[trigger] s[i]).message.id == id;
    let yes = |e: InFlightView| picks(pick, e);
    let no = |e: InFlightView| !picks(pick, e);
    if picks(pick, s[i]) {
        s.lemma_filter_contains(yes, i);
        let j = choose|j: int| 0 <= j < picked(s, pick).len() && picked(s, pick)[j] == s[i];
        assert(picked(s, pick)[j].message.id == id);
        assert(redeliveries(picked(s, pick))[j].id == id);
    } else {
        s.lemma_filter_contains(no, i);
        let j = choose|j: int| 0 <= j < unpicked(s, pick).len() && unpicked(s, pick)[j] == s[i];
        assert(unpicked(s, pick)[j].message.id == id);
    }
}

/// A pick splits the deferred entries without losing a message.
pub proof fn lemma_split_deferred(s: Seq<DeferredView>, pick: DeferredPick, id: MessageId)
    requires
        has_deferred(s, id),
    ensures
        has_deferred(unpicked_deferred(s, pick), id) || has_message(
            deferred_messages(picked_deferred(s, pick)),
            id,
        ),
{
    let i = choose|i: int| 0 <= i < s.len() && (#[trigger] s[i]).message.id == id;
    let yes = |e: DeferredView| picks_deferred(pick, e);
    let no = |e: DeferredView| !picks_deferred(pick, e);
    if picks_deferred(pick, s[i]) {
        s.lemma_filter_contains(yes, i);
        let j = choose|j: int|
            0 <= j < picked_deferred(s, pick).len() && picked_deferred(s, pick)[j] == s[i];
        assert(deferred_messages(picked_deferred(s, pick))[j].id == id);
    } else {
        s.lemma_filter_contains(no, i);
        let j = choose|j: int|
            0 <= j < unpicked_deferred(s, pick).len() && unpicked_deferred(s, pick)[j] == s[i];
        assert(unpicked_deferred(s, pick)[j].message.id == id);
    }
}

/// Adding messages loses none.
pub proof fn lemma_more_messages(s: Seq<MessageView>, t: Seq<MessageView>, m: MessageView, id: MessageId)
    ensures
        has_message(s, id) ==> has_message(s.push(m), id) && has_message(s + t, id),
        has_message(t, id) ==> has_message(s + t, id),
        has_message(s.push(m), m.id),
{
    if has_message(s, id) {
        let i = choose|i: int| 0 <= i < s.len() && (#[trigger] s[i]).id == id;
        assert(s.push(m)[i].id == id);
        assert((s + t)[i].id == id);
    }
    if has_message(t, id) {
        let i = choose|i: int| 0 <= i < t.len() && (#[trigger] t[i]).id == id;
        assert((s + t)[s.len() + i].id == id);
    }
    assert(s.push(m)[s.len() as int].id == m.id);
}

/// Adding an entry loses none.
pub proof fn lemma_more_entries(s: Seq<InFlightView>, e: InFlightView, id: MessageId)
    ensures
        has_entry(s, id) ==> has_entry(s.push(e), id),
        has_entry(s.push(e), e.message.id),
{
    if has_entry(s, id) {
        let i = choose|i: int| 0 <= i < s.len() && (#[trigger] s[i]).message.id == id;
        assert(s.push(e)[i].message.id == id);
    }
    assert(s.push(e)[s.len() as int].message.id == e.message.id);
}

/// Adding a deferred entry loses none.
pub proof fn lemma_more_deferred(s: Seq<DeferredView>, e: DeferredView, id: MessageId)
    ensures
        has_deferred(s, id) ==> has_deferred(s.push(e), id),
        has_deferred(s.push(e), e.message.id),
{
    if has_deferred(s, id) {
        let i = choose|i: int| 0 <= i < s.len() && (#[trigger] s[i]).message.id == id;
        assert(s.push(e)[i].message.id == id);
    }
    assert(s.push(e)[s.len() as int].message.id == e.message.id);
}

impl QueueView {
    /// No message is lost on the way: whatever is done to a queue but
    /// acknowledging a message or dropping all of them, a message that the
    /// queue held in memory before it holds after. What leaves one state
    /// enters another.
    pub proof fn lemma_nothing_is_lost(
        self,
        id: MessageId,
        m: MessageView,
        other: MessageId,
        client: ClientId,
        delay: u64,
        now: u64,
    )
        requires
            self.holds(id),
        ensures
            self.after_put(m).holds(id),
            self.after_adopt(m).holds(id),
            self.after_put_deferred(m, now).holds(id),
            self.pending.len() > 0 ==> self.after_get().after_mark(
                self.pending[0],
                client,
                delay,
                now,
            ).holds(id),
            other != id ==> self.after_finish(other).holds(id),
            self.after_requeue(other, delay, now).holds(id),
            self.after_defer(other, delay, now).holds(id),
            self.after_touch(other, now).holds(id),
            self.after_process_deferred(now).after_restore(self.ready(now)).holds(id),
            self.after_cleanup(Pick::Expired(now)).after_restore(
                redeliveries(picked(self.in_flight, Pick::Expired(now))),
            ).holds(id),
            self.after_release(client).after_restore(
                redeliveries(picked(self.in_flight, Pick::Client(client))),
            ).holds(id),
    {
        self.lemma_put_keeps(id, m, now);
        self.lemma_dispatch_keeps(id, client, delay, now);
        if other != id {
            self.lemma_finish_keeps(id, other);
        }
        self.lemma_requeue_keeps(id, other, delay, now);
        self.lemma_touch_keeps(id, other, now);
        self.lemma_sweeps_keep(id, client, now);
    }

    proof fn lemma_put_keeps(self, id: MessageId, m: MessageView, now: u64)
        requires
            self.holds(id),
        ensures
            self.after_put(m).holds(id),
            self.after_adopt(m).holds(id),
            self.after_put_deferred(m, now).holds(id),
    {
        lemma_more_messages(self.pending, Seq::empty(), m, id);
        if has_deferred(self.deferred, id) {
            let rest = unpicked_deferred(self.deferred, DeferredPick::Id(m.id));
            let e = DeferredView { message: m, ready_at: now };
            lemma_more_deferred(rest, e, id);
            if id != m.id {
                lemma_split_deferred(self.deferred, DeferredPick::Id(m.id), id);
                lemma_picked_deferred_ids(self.deferred, m.id, id);
            }
        }
    }

    proof fn lemma_dispatch_keeps(self, id: MessageId, client: ClientId, delay: u64, now: u64)
        requires
            self.holds(id),
        ensures
            self.pending.len() > 0 ==> self.after_get().after_mark(
                self.pending[0],
                client,
                delay,
                now,
            ).holds(id),
    {
        if self.pending.len() > 0 {
            let first = self.pending[0];
            let after = self.after_get().after_mark(first, client, delay, now);
            let rest = unpicked(self.in_flight, Pick::Id(first.id));
            let e = InFlightView {
                message: first,
                client_id: client,
                start_time: now,
                timeout: delay,
                requeue_count: 0,
            };
            lemma_more_entries(rest, e, id);
            if id != first.id {
                if has_message(self.pending, id) {
                    let i = choose|i: int|
                        0 <= i < self.pending.len() && (#[trigger] self.pending[i]).id == id;
                    assert(self.pending.drop_first()[i - 1].id == id);
                }
                if has_entry(self.in_flight, id) {
                    lemma_split_entries(self.in_flight, Pick::Id(first.id), id);
                    lemma_picked_ids(self.in_flight, first.id, id);
                }
            }
        }
    }

    proof fn lemma_finish_keeps(self, id: MessageId, other: MessageId)
        requires
            self.holds(id),
            other != id,
        ensures
            self.after_finish(other).holds(id),
    {
        if has_entry(self.in_flight, id) {
            lemma_split_entries(self.in_flight, Pick::Id(other), id);
            lemma_picked_ids(self.in_flight, other, id);
        }
    }

    proof fn lemma_requeue_keeps(self, id: MessageId, other: MessageId, delay: u64, now: u64)
        requires
            self.holds(id),
        ensures
            self.after_requeue(other, delay, now).holds(id),
            self.after_defer(other, delay, now).holds(id),
    {
        if self.is_in_flight(other) {
            let back = self.redelivery(other);
            picked(self.in_flight, Pick::Id(other)).lemma_filter_len(
                |e: InFlightView| picks(Pick::Id(other), e),
            );
            self.in_flight.lemma_filter_pred(|e: InFlightView| picks(Pick::Id(other), e), 0);
            assert(back.id == other);
            lemma_more_messages(self.pending, Seq::empty(), back, id);
            let kept = unpicked_deferred(self.deferred, DeferredPick::Id(other));
            let e = DeferredView { message: back, ready_at: sat_add(now, delay as nat) };
            lemma_more_deferred(kept, e, id);
            if id != other {
                if has_entry(self.in_flight, id) {
                    lemma_split_entries(self.in_flight, Pick::Id(other), id);
                    lemma_picked_ids(self.in_flight, other, id);
                }
                if has_deferred(self.deferred, id) {
                    lemma_split_deferred(self.deferred, DeferredPick::Id(other), id);
                    lemma_picked_deferred_ids(self.deferred, other, id);
                }
            }
        }
    }

    proof fn lemma_touch_keeps(self, id: MessageId, other: MessageId, now: u64)
        requires
            self.holds(id),
        ensures
            self.after_touch(other, now).holds(id),
    {
        if has_entry(self.in_flight, id) {
            let i = choose|i: int|
                0 <= i < self.in_flight.len() && (#[trigger] self.in_flight[i]).message.id == id;
            assert(touched(self.in_flight, other, now)[i].message.id == id);
        }
    }

    proof fn lemma_sweeps_keep(self, id: MessageId, client: ClientId, now: u64)
        requires
            self.holds(id),
        ensures
            self.after_process_deferred(now).after_restore(self.ready(now)).holds(id),
            self.after_cleanup(Pick::Expired(now)).after_restore(
                redeliveries(picked(self.in_flight, Pick::Expired(now))),
            ).holds(id),
            self.after_release(client).after_restore(
                redeliveries(picked(self.in_flight, Pick::Client(client))),
            ).holds(id),
    {
        let blank = crate::message::blank_message();
        lemma_more_messages(self.pending, self.ready(now), blank, id);
        lemma_more_messages(
            self.pending,
            redeliveries(picked(self.in_flight, Pick::Expired(now))),
            blank,
            id,
        );
        lemma_more_messages(
            self.pending,
            redeliveries(picked(self.in_flight, Pick::Client(client))),
            blank,
            id,
        );
        if has_deferred(self.deferred, id) {
            lemma_split_deferred(self.deferred, DeferredPick::Ready(now), id);
        }
        if has_entry(self.in_flight, id) {
            lemma_split_entries(self.in_flight, Pick::Expired(now), id);
            lemma_split_entries(self.in_flight, Pick::Client(client), id);
        }
    }
}

/// The entries picked by identifier are of that message alone.
proof fn lemma_picked_ids(s: Seq<InFlightView>, picked_id: MessageId, id: MessageId)
    requires
        id != picked_id,
    ensures
        !has_entry(picked(s, Pick::Id(picked_id)), id),
{
    let yes = |e: InFlightView| picks(Pick::Id(picked_id), e);
    assert forall|j: int| 0 <= j < picked(s, Pick::Id(picked_id)).len() implies (#[trigger] picked(
        s,
        Pick::Id(picked_id),
    )[j]).message.id != id by {
        s.lemma_filter_pred(yes, j);
    }
}

/// The deferred entries picked by identifier are of that message alone.
proof fn lemma_picked_deferred_ids(s: Seq<DeferredView>, picked_id: MessageId, id: MessageId)
    requires
        id != picked_id,
    ensures
        !has_message(deferred_messages(picked_deferred(s, DeferredPick::Id(picked_id))), id),
{
    let yes = |e: DeferredView| picks_deferred(DeferredPick::Id(picked_id), e);
    let taken = picked_deferred(s, DeferredPick::Id(picked_id));
    assert forall|j: int| 0 <= j < deferred_messages(taken).len() implies (
    #[trigger] deferred_messages(taken)[j]).id != id by {
        s.lemma_filter_pred(yes, j);
    }
}

/// No two of the in-flight entries are of one message.
pub open spec fn distinct_entries(s: Seq<InFlightView>) -> bool {
    forall|i: int, j: int|
        0 <= i < j < s.len() ==> (#[trigger] s[i]).message.id != (#[trigger] s[j]).message.id
}

/// No two of the deferred entries are of one message.
pub open spec fn distinct_deferred(s: Seq<DeferredView>) -> bool {
    forall|i: int, j: int|
        0 <= i < j < s.len() ==> (#[trigger] s[i]).message.id != (#[trigger] s[j]).message.id
}

/// Taking entries out leaves no message in flight twice, and neither does
/// an entry that replaces the one of its message, nor a touch.
pub proof fn lemma_entries_stay_distinct(s: Seq<InFlightView>, pick: Pick, e: InFlightView, now: u64)
    requires
        distinct_entries(s),
    ensures
        distinct_entries(unpicked(s, pick)),
        distinct_entries(picked(s, pick)),
        distinct_entries(unpicked(s, Pick::Id(e.message.id)).push(e)),
        distinct_entries(touched(s, e.message.id, now)),
{
    let key = |x: InFlightView| x.message.id;
    assert(distinct_by(s, key));
    lemma_filter_distinct(s, key, |x: InFlightView| !picks(pick, x));
    lemma_filter_distinct(s, key, |x: InFlightView| picks(pick, x));
    assert(distinct_by(unpicked(s, pick), key));
    assert(distinct_by(picked(s, pick), key));
    let others = unpicked(s, Pick::Id(e.message.id));
    lemma_filter_distinct(s, key, |x: InFlightView| !picks(Pick::Id(e.message.id), x));
    lemma_filter_passes(s, |x: InFlightView| !picks(Pick::Id(e.message.id), x));
    assert(distinct_by(others, key));
    lemma_push_distinct(others, key, e);
    assert(distinct_by(others.push(e), key));
    let t = touched(s, e.message.id, now);
    assert forall|i: int, j: int| 0 <= i < j < t.len() implies (#[trigger] t[i]).message.id != (
    #[trigger] t[j]).message.id by {
        assert(t[i].message.id == s[i].message.id && t[j].message.id == s[j].message.id);
    }
}

/// Taking deferred entries out leaves no message deferred twice, and neither
/// does an entry that replaces the one of its message.
pub proof fn lemma_deferred_stay_distinct(s: Seq<DeferredView>, pick: DeferredPick, e: DeferredView)
    requires
        distinct_deferred(s),
    ensures
        distinct_deferred(unpicked_deferred(s, pick)),
        distinct_deferred(unpicked_deferred(s, DeferredPick::Id(e.message.id)).push(e)),
{
    let key = |x: DeferredView| x.message.id;
    assert(distinct_by(s, key));
    lemma_filter_distinct(s, key, |x: DeferredView| !picks_deferred(pick, x));
    assert(distinct_by(unpicked_deferred(s, pick), key));
    let others = unpicked_deferred(s, DeferredPick::Id(e.message.id));
    lemma_filter_distinct(s, key, |x: DeferredView| !picks_deferred(DeferredPick::Id(e.message.id), x));
    lemma_filter_passes(s, |x: DeferredView| !picks_deferred(DeferredPick::Id(e.message.id), x));
    assert(distinct_by(others, key));
    lemma_push_distinct(others, key, e);
    assert(distinct_by(others.push(e), key));
}

/// A message that is in flight among distinct entries has exactly one
/// entry there, and taking it out leaves one entry less.
pub proof fn lemma_one_entry(s: Seq<InFlightView>, id: MessageId)
    requires
        distinct_entries(s),
        picked(s, Pick::Id(id)).len() > 0,
    ensures
        picked(s, Pick::Id(id)).len() == 1,
        unpicked(s, Pick::Id(id)).len() == s.len() - 1,
{
    let key = |x: InFlightView| x.message.id;
    assert(distinct_by(s, key));
    lemma_one_of_key(s, key, |x: InFlightView| picks(Pick::Id(id), x), id);
    lemma_pick_lengths(s, Pick::Id(id));
}

/// A message that is deferred among distinct entries has one entry there,
/// and one that is not deferred has none.
pub proof fn lemma_one_deferred(s: Seq<DeferredView>, id: MessageId)
    requires
        distinct_deferred(s),
    ensures
        picked_deferred(s, DeferredPick::Id(id)).len() <= 1,
        unpicked_deferred(s, DeferredPick::Id(id)).len() == s.len() - picked_deferred(
            s,
            DeferredPick::Id(id),
        ).len(),
{
    let key = |x: DeferredView| x.message.id;
    assert(distinct_by(s, key));
    lemma_one_of_key(s, key, |x: DeferredView| picks_deferred(DeferredPick::Id(id), x), id);
    lemma_deferred_pick_lengths(s, DeferredPick::Id(id));
}

impl QueueView {
    /// The invariant of a queue: no message is in flight twice, and none is
    /// deferred twice.
    pub open spec fn wf(self) -> bool {
        distinct_entries(self.in_flight) && distinct_deferred(self.deferred)
    }

    /// Whether exactly one message has left the in-flight entries from this
    /// queue to the queue `after`.
    pub open spec fn moved_one(self, after: QueueView) -> bool {
        after.in_flight.len() == self.in_flight.len() - 1
    }

    /// Whether message `id` is among the deferred ones.
    pub open spec fn is_deferred(self, id: MessageId) -> bool {
        picked_deferred(self.deferred, DeferredPick::Id(id)).len() > 0
    }

    /// Every operation keeps the invariant of a queue.
    pub proof fn lemma_wf_kept(
        self,
        m: MessageView,
        id: MessageId,
        client: ClientId,
        delay: u64,
        now: u64,
        pick: Pick,
        data: Seq<u8>,
        ms: Seq<MessageView>,
    )
        requires
            self.wf(),
        ensures
            self.after_put(m).wf(),
            self.after_adopt(m).wf(),
            self.after_get().wf(),
            self.after_mark(m, client, delay, now).wf(),
            self.after_finish(id).wf(),
            self.after_requeue(id, delay, now).wf(),
            self.after_defer(id, delay, now).wf(),
            self.after_put_deferred(m, now).wf(),
            self.after_process_deferred(now).wf(),
            self.after_cleanup(pick).wf(),
            self.after_release(client).wf(),
            self.after_touch(id, now).wf(),
            self.after_restore(ms).wf(),
            self.after_load(data).wf(),
            self.after_read_disk(data).wf(),
            self.after_hand_over().wf(),
            self.after_give_up(now, now, delay).wf(),
            self.after_clear().wf(),
    {
        let entry = InFlightView {
            message: m,
            client_id: client,
            start_time: now,
            timeout: delay,
            requeue_count: 0,
        };
        lemma_entries_stay_distinct(self.in_flight, Pick::Id(m.id), entry, now);
        lemma_entries_stay_distinct(self.in_flight, pick, entry, now);
        lemma_entries_stay_distinct(self.in_flight, Pick::Client(client), entry, now);
        let touch = InFlightView { message: MessageView { id, ..m }, ..entry };
        lemma_entries_stay_distinct(self.in_flight, Pick::Id(id), touch, now);
        let again = DeferredView {
            message: self.redelivery(id),
            ready_at: sat_add(now, delay as nat),
        };
        if self.is_in_flight(id) {
            lemma_filter_passes(self.in_flight, |e: InFlightView| picks(Pick::Id(id), e));
            assert(again.message.id == id);
        }
        lemma_deferred_stay_distinct(
            self.deferred,
            DeferredPick::Id(id),
            DeferredView { message: MessageView { id, ..again.message }, ..again },
        );
        lemma_deferred_stay_distinct(
            self.deferred,
            DeferredPick::Ready(now),
            DeferredView { message: m, ready_at: now },
        );
    }

    /// Among distinct entries an acknowledgement takes exactly one message
    /// out of flight, and a message that is handed back moves: it leaves
    /// the in-flight entries and is pending, or deferred, once. Nothing is
    /// copied and nothing is lost.
    pub proof fn lemma_one_moves(self, id: MessageId, delay: u64, now: u64)
        requires
            self.wf(),
            self.is_in_flight(id),
        ensures
            self.after_finish(id).in_flight.len() == self.in_flight.len() - 1,
            self.after_finish(id).pending == self.pending,
            self.after_finish(id).deferred == self.deferred,
            self.after_requeue(id, delay, now).in_flight.len() == self.in_flight.len() - 1,
            delay == 0 ==> self.after_requeue(id, delay, now).pending.len() == self.pending.len()
                + 1 && self.after_requeue(id, delay, now).deferred == self.deferred,
            delay > 0 ==> self.after_requeue(id, delay, now).pending == self.pending,
            delay > 0 && !self.is_deferred(id) ==> self.after_requeue(
                id,
                delay,
                now,
            ).deferred.len() == self.deferred.len() + 1,
            delay > 0 && self.is_deferred(id) ==> self.after_requeue(
                id,
                delay,
                now,
            ).deferred.len() == self.deferred.len(),
            !self.is_deferred(id) ==> self.after_requeue(id, delay, now).held() == self.held(),
            self.after_defer(id, delay, now).in_flight.len() == self.in_flight.len() - 1,
            !self.is_deferred(id) ==> self.after_defer(id, delay, now).deferred.len()
                == self.deferred.len() + 1,
    {
        lemma_one_entry(self.in_flight, id);
        lemma_one_deferred(self.deferred, id);
    }
}

impl QueueView {
    /// A message that a queue takes is kept whole: it is the last pending
    /// message, or its wire form is the record that is planned for the place
    /// on disk where the backing writes next, and one more record waits
    /// there.
    pub proof fn lemma_accepted_is_kept(self, m: MessageView)
        requires
            self.accepts(m),
        ensures
            self.fits_memory() ==> self.after_put(m).pending == self.pending.push(m),
            !self.fits_memory() ==> {
                let d = self.disk->Some_0;
                let planned = self.after_put(m).spill.last();
                &&& self.after_put(m).spill.len() == self.spill.len() + 1
                &&& planned.record == payload_bytes(message_bytes(m))
                &&& planned.file_num == d.target_file(message_wire_len(m))
                &&& planned.offset == d.target_offset(message_wire_len(m))
                &&& self.after_put(m).backend_depth() == self.backend_depth() + 1
                &&& self.after_put(m).pending == self.pending
            },
    {
    }

    /// A message that went to disk comes back as it was: where its record
    /// stands at the read position of the segment, after the bytes `before`
    /// and followed by whatever `rest`, reading the disk puts the message,
    /// unchanged, at the tail of memory, and one record less waits on disk.
    pub proof fn lemma_spilled_comes_back(self, m: MessageView, before: Seq<u8>, rest: Seq<u8>)
        requires
            self.disk is Some,
            self.disk->Some_0.depth > 0,
            self.disk->Some_0.read_pos == before.len(),
            m.body.len() + 26 <= u32::MAX,
        ensures
            ({
                let segment = before + payload_bytes(message_bytes(m)) + rest;
                &&& self.read_back(segment) == Some(true)
                &&& self.after_read_disk(segment).pending == self.pending.push(m)
                &&& self.after_read_disk(segment).backend_depth() == self.backend_depth() - 1
                &&& self.after_read_disk(segment).in_flight == self.in_flight
                &&& self.after_read_disk(segment).deferred == self.deferred
            }),
    {
        let record = message_bytes(m);
        let segment = before + payload_bytes(record) + rest;
        crate::message::lemma_message_roundtrip(m);
        crate::wire::lemma_payload_roundtrip(record, rest);
        assert(segment.skip(before.len() as int) =~= payload_bytes(record) + rest);
    }
}

} // verus!
