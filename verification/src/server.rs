//! The broker: its topics and clients, publishing, the periodic sweeps, and
//! what becomes of a client's messages when it leaves.
//!
//! Times are milliseconds since the Unix epoch.

use crate::channel::{ChannelOp, ChannelView, Delivery, Subscriber};
use crate::client::{
    may_publish, next_state, Client, ClientEvent, ClientInfo, ClientState, ClientStats, ClientView,
    HeartbeatAction,
};
use crate::clock::now_millis;
use crate::config::NsqdConfig;
use crate::disk_queue::{DiskQueue, DiskState, DiskWrite};
use crate::errors::NsqError;
use crate::command::Command;
use crate::message::{id_from_bytes, Message, MessageId, MessageView, MESSAGE_ID_LEN};
use crate::protocol::{
    identify_json, identify_response, negotiate, negotiated, ErrorCode, Grants, IdentifyRequest,
    Reply, ReplyKind,
};
use crate::message_queue::{message_views, read_gave, sat_add, ClientId, QueueView};
use crate::seqs::{first_where, lemma_first_where, lemma_first_where_map, position};
use crate::text::str_equal;
use crate::topic::{find_channel, holds_nothing, id_rows, new_topic, Topic, TopicView};
use crate::validation::{valid_name, validate_topic_channel_name};
use vstd::prelude::*;
use vstd::string::*;
use vstd::utf8::encode_utf8;

verus! {

/// The limits that the broker enforces.
#[derive(Debug, Clone, Copy, PartialEq, Eq, Structural)]
pub struct Limits {
    /// How many messages each queue holds in memory.
    pub mem_queue_size: usize,
    /// The largest body of one message.
    pub max_msg_size: usize,
    /// The largest payload of one request.
    pub max_body_size: usize,
    /// The longest delay of a requeue or a deferred publish.
    pub max_req_timeout: u64,
    /// The longest message timeout a client can negotiate.
    pub max_msg_timeout: u64,
    /// The message timeout of a client that negotiates none.
    pub msg_timeout: u64,
    /// The largest credit a client can announce.
    pub max_rdy_count: u32,
    /// The largest output buffer a client can negotiate.
    pub max_output_buffer_size: usize,
    /// The longest output buffer timeout a client can negotiate.
    pub max_output_buffer_timeout: u64,
    /// Whether queues overflow to disk.
    pub disk_backed: bool,
    /// The largest segment file of a disk backing.
    pub max_file_size: u64,
}

impl Limits {
    /// The disk backing that a new topic starts with.
    pub open spec fn disk(self) -> Option<DiskState> {
        if self.disk_backed {
            Some(
                DiskState {
                    max_file_size: self.max_file_size,
                    max_msg_size: usize::MAX,
                    read_file_num: 0,
                    read_pos: 0,
                    write_file_num: 0,
                    write_pos: 0,
                    depth: 0,
                    sync_count: 0,
                },
            )
        } else {
            None
        }
    }
}

/// The sum of the lengths of the bodies of `ms`.
pub open spec fn total_len(ms: Seq<MessageView>) -> nat
    decreases ms.len(),
{
    if ms.len() == 0 {
        0
    } else {
        total_len(ms.drop_last()) + ms.last().body.len()
    }
}

/// The new messages that carry `bodies`: message `k` carries body `k` and
/// has not been attempted.
pub open spec fn carries(ms: Seq<MessageView>, bodies: Seq<Seq<u8>>) -> bool {
    &&& ms.len() == bodies.len()
    &&& forall|k: int|
        0 <= k < ms.len() ==> (#[trigger] ms[k]).body == bodies[k] && ms[k].attempts == 0
}

/// The rows `ids` hold the identifiers for the copies of `n` messages:
/// one row for each message, of `spare` identifiers each.
pub open spec fn supplies(ids: Seq<Seq<MessageId>>, n: nat, spare: nat) -> bool {
    &&& ids.len() == n
    &&& forall|k: int| 0 <= k < ids.len() ==> (#[trigger] ids[k]).len() == spare
}

/// What a command of client `id` at `now` leads to: the reply `reply` and
/// the broker `post`, starting from the broker `pre` in which the command
/// was counted.
pub open spec fn command_outcome(
    pre: ServerView,
    post: ServerView,
    id: ClientId,
    command: Command,
    now: u64,
    reply: Reply,
) -> bool {
    match command {
        Command::Identify { data } => reply.kind() == pre.identify_reply(id) && exists|
            req: IdentifyRequest,
        | req.asked_in(data@) && post == #[trigger] pre.after_identify(id, req),
        Command::Sub { topic, channel } => reply.kind() == pre.sub_reply(id, topic@, channel@)
            && post == pre.after_sub(id, topic@, channel@, now),
        Command::Rdy { count } => reply.kind() == pre.rdy_reply(id, count) && post
            == pre.after_rdy(id, count, now),
        Command::Fin { message_id } => {
            let op = ChannelOp::Finish(id_from_bytes(message_id@));
            reply.kind() == pre.message_reply(id, message_id@, op, ErrorCode::FinFailed) && post
                == pre.after_message_op(id, message_id@, op, now)
        },
        Command::Req { message_id, timeout } => {
            let op = ChannelOp::Requeue {
                id: id_from_bytes(message_id@),
                delay: pre.requeue_delay(timeout),
            };
            reply.kind() == pre.message_reply(id, message_id@, op, ErrorCode::ReqFailed) && post
                == pre.after_message_op(id, message_id@, op, now)
        },
        Command::Touch { message_id } => {
            let op = ChannelOp::Touch(id_from_bytes(message_id@));
            reply.kind() == pre.message_reply(id, message_id@, op, ErrorCode::TouchFailed) && post
                == pre.after_message_op(id, message_id@, op, now)
        },
        Command::Pub { topic, body } => reply.kind() == pre.pub_reply(id, topic@, body@, now)
            && exists|m: MessageView, ids: Seq<MessageId>|
            m.body == body@ && m.attempts == 0 && ids.len() == pre.spare_copies(topic@) && post
                == #[trigger] pre.after_pub(id, topic@, m, ids, now),
        Command::Mpub { topic, bodies } => exists|ms: Seq<MessageView>, ids: Seq<Seq<MessageId>>|
            carries(ms, crate::text::byte_rows(bodies)) && supplies(
                ids,
                ms.len(),
                pre.spare_copies(topic@),
            ) && reply.kind() == pre.mpub_reply(id, topic@, ms, now) && post
                == #[trigger] pre.after_mpub(id, topic@, ms, ids, now),
        Command::Dpub { topic, delay, body } => exists|m: MessageView, ids: Seq<MessageId>|
            m.body == body@ && m.attempts == 0 && ids.len() == pre.spare_copies(topic@)
                && reply.kind() == pre.dpub_reply(id, topic@, delay, m, now) && post
                == #[trigger] pre.after_dpub(id, topic@, delay, m, ids, now),
        Command::Auth { secret } => reply.kind() == ReplyKind::Error(ErrorCode::AuthFailed)
            && post == pre,
        Command::Nop => reply.kind() == ReplyKind::Nothing && post == pre,
        Command::Close => reply.kind() == ReplyKind::CloseWait && post == pre.after_remove_client(
            id,
        ),
    }
}

/// A message without identity that carries `body`.
pub open spec fn with_body(body: Seq<u8>) -> MessageView {
    MessageView { id: MessageId { hi: 0, lo: 0 }, timestamp: 0, attempts: 0, body }
}

/// The views of topics.
pub open spec fn topic_views(topics: Seq<Topic>) -> Seq<TopicView> {
    topics.map_values(|t: Topic| t@)
}

/// The views of clients.
pub open spec fn client_views(clients: Seq<Client>) -> Seq<ClientView> {
    clients.map_values(|c: Client| c@)
}

/// The broker as a mathematical value.
pub struct ServerView {
    pub topics: Seq<TopicView>,
    pub clients: Seq<ClientView>,
    pub limits: Limits,
}

impl ServerView {
    /// The invariant of the broker: every topic is well-formed, and no two
    /// topics have one name.
    pub open spec fn wf(self) -> bool {
        &&& forall|i: int| 0 <= i < self.topics.len() ==> (#[trigger] self.topics[i]).wf()
        &&& forall|i: int, j: int|
            0 <= i < j < self.topics.len() ==> (#[trigger] self.topics[i]).name != (
            #[trigger] self.topics[j]).name
    }

    /// The index of the topic called `name`, or the number of topics.
    pub open spec fn topic_at(self, name: Seq<char>) -> int {
        first_where(self.topics, |t: TopicView| t.name == name)
    }

    /// Whether the broker has a topic called `name`.
    pub open spec fn has_topic(self, name: Seq<char>) -> bool {
        self.topic_at(name) < self.topics.len()
    }

    /// The index of the client `id`, or the number of clients.
    pub open spec fn client_at(self, id: ClientId) -> int {
        first_where(self.clients, |c: ClientView| c.info.id == id)
    }

    /// Whether the broker has a client `id`.
    pub open spec fn has_client(self, id: ClientId) -> bool {
        self.client_at(id) < self.clients.len()
    }

    /// The broker after a topic called `name` was asked for at `now`: a new
    /// topic at the end where the name is well-formed and new, and no change
    /// otherwise.
    pub open spec fn after_create_topic(self, name: Seq<char>, now: u64) -> ServerView {
        if valid_name(encode_utf8(name)) && !self.has_topic(name) {
            ServerView {
                topics: self.topics.push(
                    new_topic(name, self.limits.mem_queue_size, self.limits.disk(), now),
                ),
                ..self
            }
        } else {
            self
        }
    }

    /// The broker after a topic called `name` was found on disk at `now`
    /// with the backing `disk` of its backlog: a new topic at the end where
    /// the name is well-formed and new, and no change otherwise.
    pub open spec fn after_restore_topic(self, name: Seq<char>, disk: DiskState, now: u64)
        -> ServerView {
        if valid_name(encode_utf8(name)) && !self.has_topic(name) {
            ServerView {
                topics: self.topics.push(
                    new_topic(name, self.limits.mem_queue_size, Some(disk), now),
                ),
                ..self
            }
        } else {
            self
        }
    }

    /// The broker after the topic called `name` was deleted.
    pub open spec fn after_delete_topic(self, name: Seq<char>) -> ServerView {
        if self.has_topic(name) {
            ServerView { topics: self.topics.remove(self.topic_at(name)), ..self }
        } else {
            self
        }
    }

    /// Whether the broker takes message `m` for the topic called `name`:
    /// the name is well-formed, the body is within the message limit, and
    /// the topic, made anew where it does not exist, takes the message.
    pub open spec fn takes(self, name: Seq<char>, m: MessageView, now: u64) -> bool {
        &&& valid_name(encode_utf8(name))
        &&& m.body.len() <= self.limits.max_msg_size
        &&& {
            let s = self.after_create_topic(name, now);
            s.topics[s.topic_at(name)].takes(m)
        }
    }

    /// The broker after `m` was published to the topic called `name` at
    /// `now`, with the identifiers `ids` for the copies. A message that is
    /// within the limits makes the topic where it does not exist, also where
    /// the topic then does not take the message. Nothing changes where the
    /// name is not well-formed or the body is over the message limit.
    pub open spec fn after_publish(self, name: Seq<char>, m: MessageView, ids: Seq<MessageId>, now: u64)
        -> ServerView {
        if valid_name(encode_utf8(name)) && m.body.len() <= self.limits.max_msg_size {
            let s = self.after_create_topic(name, now);
            let i = s.topic_at(name);
            ServerView { topics: s.topics.update(i, s.topics[i].after_publish(m, ids)), ..s }
        } else {
            self
        }
    }

    /// How many identifiers a new message for the topic called `name` needs
    /// besides its own: one for the copy of each channel of the topic after
    /// the first, and none where there is no such topic.
    pub open spec fn spare_copies(self, name: Seq<char>) -> nat {
        if self.has_topic(name) && self.topics[self.topic_at(name)].channels.len() > 0 {
            (self.topics[self.topic_at(name)].channels.len() - 1) as nat
        } else {
            0
        }
    }

    /// The broker after a client with the settings `info` connected at
    /// `now`: its record is the last.
    pub open spec fn after_add_client(self, info: ClientInfo, now: u64) -> ServerView {
        ServerView { clients: self.clients.push(crate::client::new_client(info, now)), ..self }
    }

    /// The broker after client `id` sent a `PUB` of `m` for `topic` at
    /// `now`: nothing changes where the first check refuses the command.
    pub open spec fn after_pub(
        self,
        id: ClientId,
        topic: Seq<char>,
        m: MessageView,
        ids: Seq<MessageId>,
        now: u64,
    ) -> ServerView {
        if self.publish_refusal(id, topic) is Some {
            self
        } else {
            self.after_publish(topic, m, ids, now)
        }
    }

    /// The broker after client `id` sent an `MPUB` of `ms` for `topic` at
    /// `now`: nothing changes where the first check refuses the command.
    pub open spec fn after_mpub(
        self,
        id: ClientId,
        topic: Seq<char>,
        ms: Seq<MessageView>,
        ids: Seq<Seq<MessageId>>,
        now: u64,
    ) -> ServerView {
        if self.publish_refusal(id, topic) is Some {
            self
        } else {
            self.after_publish_batch(topic, ms, ids, now)
        }
    }

    /// The broker after client `id` sent a `DPUB` of `m` for `topic` with
    /// the delay `delay` at `now`: nothing changes where the first check
    /// refuses the command or the delay is over the limit.
    pub open spec fn after_dpub(
        self,
        id: ClientId,
        topic: Seq<char>,
        delay: u64,
        m: MessageView,
        ids: Seq<MessageId>,
        now: u64,
    ) -> ServerView {
        if self.publish_refusal(id, topic) is Some || delay > self.limits.max_req_timeout {
            self
        } else {
            self.after_publish_deferred(topic, m, ids, sat_add(now, delay as nat), now)
        }
    }

    /// The broker after `op` on the channel `channel` of the topic `topic`
    /// at `now`; no change where the topic or the channel does not exist.
    pub open spec fn after_channel_op(
        self,
        topic: Seq<char>,
        channel: Seq<char>,
        op: ChannelOp,
        now: u64,
    ) -> ServerView {
        if self.has_topic(topic) && self.topics[self.topic_at(topic)].has_channel(channel) {
            let i = self.topic_at(topic);
            let t = self.topics[i];
            ServerView {
                topics: self.topics.update(
                    i,
                    t.after_op(find_channel(t.channels, channel), op, now),
                ),
                ..self
            }
        } else {
            self
        }
    }

    /// The broker after the channel `channel` of the topic `topic` was asked
    /// for at `now`: the topic and the channel are made where they do not
    /// exist and their names are well-formed.
    pub open spec fn after_create_channel(self, topic: Seq<char>, channel: Seq<char>, now: u64)
        -> ServerView {
        let s = self.after_create_topic(topic, now);
        if s.has_topic(topic) {
            let i = s.topic_at(topic);
            ServerView { topics: s.topics.update(i, s.topics[i].after_add_channel(channel, now)), ..s }
        } else {
            s
        }
    }

    /// The broker after the channel `channel` of the topic `topic` was found
    /// on disk with the backing `disk` at `now`: the topic is made where it
    /// does not exist, and the channel joins it where it can.
    pub open spec fn after_restore_channel(
        self,
        topic: Seq<char>,
        channel: Seq<char>,
        disk: DiskState,
        now: u64,
    ) -> ServerView {
        let s = self.after_create_topic(topic, now);
        if s.has_topic(topic) {
            let i = s.topic_at(topic);
            ServerView {
                topics: s.topics.update(i, s.topics[i].after_restore_channel(channel, disk, now)),
                ..s
            }
        } else {
            s
        }
    }

    /// Whether the channel `channel` of the topic `topic` can be restored at
    /// `now`: the topic has a well-formed name, and, made anew where it does
    /// not exist, lets the channel join.
    pub open spec fn can_restore(self, topic: Seq<char>, channel: Seq<char>, now: u64) -> bool {
        let s = self.after_create_topic(topic, now);
        valid_name(encode_utf8(topic)) && s.topics[s.topic_at(topic)].can_restore(channel)
    }

    /// The broker after the channel `channel` of the topic `topic` was
    /// deleted.
    pub open spec fn after_delete_channel(self, topic: Seq<char>, channel: Seq<char>) -> ServerView {
        if self.has_topic(topic) {
            let i = self.topic_at(topic);
            ServerView {
                topics: self.topics.update(i, self.topics[i].after_remove_channel(channel)),
                ..self
            }
        } else {
            self
        }
    }

    /// The broker after the topic called `name` was paused or unpaused.
    pub open spec fn after_set_paused(self, name: Seq<char>, paused: bool) -> ServerView {
        if self.has_topic(name) {
            let i = self.topic_at(name);
            ServerView {
                topics: self.topics.update(
                    i,
                    if paused {
                        self.topics[i].after_pause()
                    } else {
                        self.topics[i].after_unpause()
                    },
                ),
                ..self
            }
        } else {
            self
        }
    }

    /// The channel `channel` of the topic `topic`, where both exist.
    pub open spec fn channel(self, topic: Seq<char>, channel: Seq<char>) -> Option<ChannelView> {
        if self.has_topic(topic) && self.topics[self.topic_at(topic)].has_channel(channel) {
            let t = self.topics[self.topic_at(topic)];
            Some(t.channels[find_channel(t.channels, channel)])
        } else {
            None
        }
    }

    /// Whether the channel `channel` of the topic `topic` hands out a
    /// message at `now`.
    pub open spec fn delivers(self, topic: Seq<char>, channel: Seq<char>) -> bool {
        self.channel(topic, channel) is Some && self.channel(topic, channel)->Some_0.delivers(
            ChannelOp::Dispatch,
            self.topics[self.topic_at(topic)].paused,
        )
    }

    /// The broker after the channel `channel` of the topic `topic` handed
    /// out its next message at `now`: the message is in flight, and the
    /// client that got it, where the broker knows it, holds it and has one
    /// credit less.
    pub open spec fn after_deliver(self, topic: Seq<char>, channel: Seq<char>, now: u64)
        -> ServerView {
        if self.delivers(topic, channel) {
            let c = self.channel(topic, channel)->Some_0;
            let m = c.queue.pending[0];
            let id = c.subscribers[c.chosen()->Some_0].client_id;
            let s = self.after_channel_op(topic, channel, ChannelOp::Dispatch, now);
            if s.has_client(id) {
                let ci = s.client_at(id);
                let client = s.clients[ci].after_add_in_flight(m, now);
                ServerView {
                    clients: s.clients.update(
                        ci,
                        ClientView {
                            rdy_count: if client.rdy_count > 0 {
                                (client.rdy_count - 1) as u32
                            } else {
                                0
                            },
                            ..client
                        },
                    ),
                    ..s
                }
            } else {
                s
            }
        } else {
            self
        }
    }

    /// What the broker grants of what a client may ask for.
    pub open spec fn grants(self) -> Grants {
        Grants {
            msg_timeout: self.limits.msg_timeout,
            max_msg_timeout: self.limits.max_msg_timeout,
            max_rdy_count: self.limits.max_rdy_count,
            max_output_buffer_size: self.limits.max_output_buffer_size,
            max_output_buffer_timeout: self.limits.max_output_buffer_timeout,
        }
    }

    /// The record of client `id`; meaningful where the broker has the
    /// client.
    pub open spec fn client(self, id: ClientId) -> ClientView {
        self.clients[self.client_at(id)]
    }

    /// The broker with the record of client `id` replaced by `c`.
    pub open spec fn with_client(self, id: ClientId, c: ClientView) -> ServerView {
        ServerView { clients: self.clients.update(self.client_at(id), c), ..self }
    }

    /// The broker after a command of client `id` was counted; the count of
    /// its unanswered heartbeats starts anew.
    pub open spec fn after_note(self, id: ClientId) -> ServerView {
        if self.has_client(id) {
            let c = self.client(id);
            self.with_client(
                id,
                ClientView {
                    missed_heartbeats: 0,
                    stats: ClientStats {
                        commands_received: sat_add(c.stats.commands_received, 1),
                        ..c.stats
                    },
                    ..c
                },
            )
        } else {
            self
        }
    }

    /// Whether client `id` is known and subscribed.
    pub open spec fn subscribed(self, id: ClientId) -> bool {
        self.has_client(id) && (self.client(id).state == ClientState::Subscribed || self.client(
            id,
        ).state == ClientState::Ready) && self.client(id).topic is Some && self.client(id).channel
            is Some
    }

    /// The answer to an `IDENTIFY` of client `id`: the settings in force, or
    /// a fatal error where the client is unknown or has identified itself
    /// before.
    pub open spec fn identify_reply(self, id: ClientId) -> ReplyKind {
        if self.has_client(id) && self.client(id).state == ClientState::Initial {
            ReplyKind::Response
        } else {
            ReplyKind::Error(ErrorCode::Invalid)
        }
    }

    /// The broker after an `IDENTIFY` of client `id` that asks for `req`.
    pub open spec fn after_identify(self, id: ClientId, req: IdentifyRequest) -> ServerView {
        if self.identify_reply(id) == ReplyKind::Response {
            let c = self.client(id);
            self.with_client(
                id,
                ClientView {
                    info: negotiated(c.info, req, self.grants()),
                    state: ClientState::Identified,
                    ..c
                },
            )
        } else {
            self
        }
    }

    /// The answer to a `SUB` of client `id`: `OK`; a fatal error where the
    /// client is unknown or not in the state to subscribe; an error that
    /// names the topic or the channel where its name is not well-formed.
    pub open spec fn sub_reply(self, id: ClientId, topic: Seq<char>, channel: Seq<char>) -> ReplyKind {
        if !self.has_client(id) || self.client(id).state != ClientState::Identified {
            ReplyKind::Error(ErrorCode::Invalid)
        } else if !valid_name(encode_utf8(topic)) {
            ReplyKind::Error(ErrorCode::BadTopic)
        } else if !valid_name(encode_utf8(channel)) {
            ReplyKind::Error(ErrorCode::BadChannel)
        } else {
            ReplyKind::Done
        }
    }

    /// The subscription that client `id` starts with: no credit, and the
    /// limits it negotiated.
    pub open spec fn subscription(self, id: ClientId) -> Subscriber {
        Subscriber {
            client_id: id,
            rdy: 0,
            max_in_flight: self.client(id).info.max_rdy_count,
            msg_timeout: self.client(id).info.msg_timeout,
        }
    }

    /// The broker after a `SUB` of client `id` at `now`: topic and channel
    /// exist, the client is among the subscribers of the channel, and its
    /// record names both.
    pub open spec fn after_sub(self, id: ClientId, topic: Seq<char>, channel: Seq<char>, now: u64)
        -> ServerView {
        if self.sub_reply(id, topic, channel) == ReplyKind::Done {
            let s = self.after_create_channel(topic, channel, now).after_channel_op(
                topic,
                channel,
                ChannelOp::Subscribe(self.subscription(id)),
                now,
            );
            s.with_client(
                id,
                ClientView {
                    state: ClientState::Subscribed,
                    topic: Some(topic),
                    channel: Some(channel),
                    ..self.client(id)
                },
            )
        } else {
            self
        }
    }

    /// The answer to an `RDY` of client `id`: none; a fatal error where the
    /// client is not subscribed or announces more credit than the broker
    /// allows or than the client agreed on with the broker.
    pub open spec fn rdy_reply(self, id: ClientId, count: u32) -> ReplyKind {
        if !self.subscribed(id) || count > self.limits.max_rdy_count || count > self.client(
            id,
        ).info.max_rdy_count {
            ReplyKind::Error(ErrorCode::Invalid)
        } else {
            ReplyKind::Nothing
        }
    }

    /// The broker after an `RDY` of client `id`: its credit is `count`, in
    /// its record and in its channel, and it is ready exactly where the
    /// credit is positive.
    pub open spec fn after_rdy(self, id: ClientId, count: u32, now: u64) -> ServerView {
        if self.rdy_reply(id, count) == ReplyKind::Nothing {
            let c = self.client(id);
            self.after_channel_op(
                c.topic->Some_0,
                c.channel->Some_0,
                ChannelOp::Ready { client: id, count },
                now,
            ).with_client(
                id,
                ClientView {
                    rdy_count: count,
                    state: next_state(c.state, ClientEvent::Credit(count))->Some_0,
                    ..c
                },
            )
        } else {
            self
        }
    }

    /// Whether `op` succeeds on the channel that client `id` subscribed to.
    pub open spec fn admits(self, id: ClientId, op: ChannelOp) -> bool {
        let c = self.client(id);
        self.channel(c.topic->Some_0, c.channel->Some_0) is Some && self.channel(
            c.topic->Some_0,
            c.channel->Some_0,
        )->Some_0.admits(op)
    }

    /// The answer to a command of client `id` about the message with the
    /// identifier `message_id`: none; a fatal error where the client is not
    /// subscribed or the identifier is not sixteen bytes; the error `failed`
    /// where the message is not in flight in the client's channel.
    pub open spec fn message_reply(
        self,
        id: ClientId,
        message_id: Seq<u8>,
        op: ChannelOp,
        failed: ErrorCode,
    ) -> ReplyKind {
        if !self.subscribed(id) || message_id.len() != MESSAGE_ID_LEN {
            ReplyKind::Error(ErrorCode::Invalid)
        } else if self.admits(id, op) {
            ReplyKind::Nothing
        } else {
            ReplyKind::Error(failed)
        }
    }

    /// The broker after a command of client `id` about a message: the
    /// operation is done on the client's channel, and after `FIN` and `REQ`
    /// the client does not hold the message any more.
    pub open spec fn after_message_op(
        self,
        id: ClientId,
        message_id: Seq<u8>,
        op: ChannelOp,
        now: u64,
    ) -> ServerView {
        if self.message_reply(id, message_id, op, ErrorCode::Invalid) == ReplyKind::Nothing {
            let c = self.client(id);
            let s = self.after_channel_op(c.topic->Some_0, c.channel->Some_0, op, now);
            if op is Touch {
                s
            } else {
                s.with_client(id, c.after_remove_in_flight(id_from_bytes(message_id)))
            }
        } else {
            self
        }
    }

    /// The delay that a `REQ` with the wish `timeout` gets: the wish, cut
    /// down to the longest delay the broker allows.
    pub open spec fn requeue_delay(self, timeout: u64) -> u64 {
        if timeout <= self.limits.max_req_timeout {
            timeout
        } else {
            self.limits.max_req_timeout
        }
    }

    /// The first check of a publishing command of client `id` for `topic`: a
    /// fatal error where the client is unknown or has not identified itself,
    /// and an error that names the topic where its name is not well-formed.
    pub open spec fn publish_refusal(self, id: ClientId, topic: Seq<char>) -> Option<ErrorCode> {
        if !self.has_client(id) || !may_publish(self.client(id).state) {
            Some(ErrorCode::Invalid)
        } else if !valid_name(encode_utf8(topic)) {
            Some(ErrorCode::BadTopic)
        } else {
            None
        }
    }

    /// The answer to a `PUB` of client `id`: `OK`; the refusal of the first
    /// check; an error that names the message where its body is over the
    /// limit; an error that names the publish where the topic does not take
    /// the message.
    pub open spec fn pub_reply(self, id: ClientId, topic: Seq<char>, body: Seq<u8>, now: u64)
        -> ReplyKind {
        match self.publish_refusal(id, topic) {
            Some(code) => ReplyKind::Error(code),
            None => if body.len() > self.limits.max_msg_size {
                ReplyKind::Error(ErrorCode::BadMessage)
            } else if self.takes(topic, with_body(body), now) {
                ReplyKind::Done
            } else {
                ReplyKind::Error(ErrorCode::PubFailed)
            },
        }
    }

    /// Whether the batch `ms` is within the limits: no body is over the
    /// message limit, and the bodies together are not over the request
    /// limit.
    pub open spec fn batch_fits(self, ms: Seq<MessageView>) -> bool {
        &&& forall|k: int|
            0 <= k < ms.len() ==> (#[trigger] ms[k]).body.len() <= self.limits.max_msg_size
        &&& total_len(ms) <= self.limits.max_body_size
    }

    /// Whether the broker takes the batch `ms` for the topic called `name`
    /// as a whole.
    pub open spec fn takes_batch(self, name: Seq<char>, ms: Seq<MessageView>, now: u64) -> bool {
        &&& valid_name(encode_utf8(name))
        &&& self.batch_fits(ms)
        &&& {
            let s = self.after_create_topic(name, now);
            s.topics[s.topic_at(name)].takes_all(ms)
        }
    }

    /// The broker after the batch `ms` was published to the topic called
    /// `name` at `now`: all of it or nothing. A batch that is within the
    /// limits makes the topic where it does not exist, also where the topic
    /// then does not take the batch.
    pub open spec fn after_publish_batch(
        self,
        name: Seq<char>,
        ms: Seq<MessageView>,
        ids: Seq<Seq<MessageId>>,
        now: u64,
    ) -> ServerView {
        if valid_name(encode_utf8(name)) && self.batch_fits(ms) {
            let s = self.after_create_topic(name, now);
            let i = s.topic_at(name);
            ServerView { topics: s.topics.update(i, s.topics[i].after_publish_all(ms, ids)), ..s }
        } else {
            self
        }
    }

    /// Whether the broker takes `m` for deferred delivery to the topic
    /// called `name`.
    pub open spec fn takes_deferred(self, name: Seq<char>, m: MessageView, now: u64) -> bool {
        &&& valid_name(encode_utf8(name))
        &&& m.body.len() <= self.limits.max_msg_size
        &&& {
            let s = self.after_create_topic(name, now);
            s.topics[s.topic_at(name)].takes_deferred(m)
        }
    }

    /// The broker after `m` was published to the topic called `name` at
    /// `now` for delivery at `ready_at`. A message that is within the limits
    /// makes the topic where it does not exist, also where the topic then
    /// does not take the message.
    pub open spec fn after_publish_deferred(
        self,
        name: Seq<char>,
        m: MessageView,
        ids: Seq<MessageId>,
        ready_at: u64,
        now: u64,
    ) -> ServerView {
        if valid_name(encode_utf8(name)) && m.body.len() <= self.limits.max_msg_size {
            let s = self.after_create_topic(name, now);
            let i = s.topic_at(name);
            ServerView {
                topics: s.topics.update(i, s.topics[i].after_publish_deferred(m, ids, ready_at)),
                ..s
            }
        } else {
            self
        }
    }

    /// The answer to an `MPUB` of client `id`: `OK`; the refusal of the
    /// first check; an error that names the message where the batch is over
    /// the limits; an error that names the publish where the topic does not
    /// take the batch.
    pub open spec fn mpub_reply(self, id: ClientId, topic: Seq<char>, ms: Seq<MessageView>, now: u64)
        -> ReplyKind {
        match self.publish_refusal(id, topic) {
            Some(code) => ReplyKind::Error(code),
            None => if !self.batch_fits(ms) {
                ReplyKind::Error(ErrorCode::BadMessage)
            } else if self.takes_batch(topic, ms, now) {
                ReplyKind::Done
            } else {
                ReplyKind::Error(ErrorCode::PubFailed)
            },
        }
    }

    /// The answer to a `DPUB` of client `id`: `OK`; the refusal of the first
    /// check; a fatal error where the delay is longer than the broker
    /// allows; an error that names the message where its body is over the
    /// limit; an error that names the publish where the topic does not take
    /// the message.
    pub open spec fn dpub_reply(
        self,
        id: ClientId,
        topic: Seq<char>,
        delay: u64,
        m: MessageView,
        now: u64,
    ) -> ReplyKind {
        match self.publish_refusal(id, topic) {
            Some(code) => ReplyKind::Error(code),
            None => if delay > self.limits.max_req_timeout {
                ReplyKind::Error(ErrorCode::Invalid)
            } else if m.body.len() > self.limits.max_msg_size {
                ReplyKind::Error(ErrorCode::BadMessage)
            } else if self.takes_deferred(topic, m, now) {
                ReplyKind::Done
            } else {
                ReplyKind::Error(ErrorCode::PubFailed)
            },
        }
    }

    /// The broker after the sweep at `now`: in every channel the deferred
    /// messages that are ready became pending, and then the in-flight
    /// messages that timed out became pending again.
    pub open spec fn after_tick(self, now: u64) -> ServerView {
        ServerView {
            topics: self.topics.map_values(
                |t: TopicView| t.after_process_deferred(now).after_cleanup(now),
            ),
            ..self
        }
    }

    /// The broker after client `id` left: it is no client any more, and in
    /// every channel its in-flight messages are pending again.
    pub open spec fn after_remove_client(self, id: ClientId) -> ServerView {
        ServerView {
            topics: self.topics.map_values(|t: TopicView| t.after_remove_client(id)),
            clients: self.clients.filter(|c: ClientView| c.info.id != id),
            ..self
        }
    }

    /// Whether client `id` holds no message in flight in any channel.
    pub open spec fn holds_nothing(self, id: ClientId) -> bool {
        forall|i: int|
            0 <= i < self.topics.len() ==> holds_nothing((#[trigger] self.topics[i]).channels, id)
    }
}

/// The broker.
#[derive(Debug)]
pub struct NsqdServer {
    config: NsqdConfig,
    limits: Limits,
    topics: Vec<Topic>,
    clients: Vec<Client>,
}

impl View for NsqdServer {
    type V = ServerView;

    closed spec fn view(&self) -> ServerView {
        ServerView {
            topics: topic_views(self.topics@),
            clients: client_views(self.clients@),
            limits: self.limits,
        }
    }
}

/// Asking for a topic twice makes it once: the second request changes
/// nothing.
pub proof fn lemma_create_topic_twice(s: ServerView, name: Seq<char>, t1: u64, t2: u64)
    ensures
        s.after_create_topic(name, t1).after_create_topic(name, t2) == s.after_create_topic(
            name,
            t1,
        ),
        valid_name(encode_utf8(name)) ==> s.after_create_topic(name, t1).has_topic(name),
{
    let pred = |t: TopicView| t.name == name;
    lemma_first_where(s.topics, pred);
    let once = s.after_create_topic(name, t1);
    if valid_name(encode_utf8(name)) && !s.has_topic(name) {
        let last = s.topics.len() as int;
        assert(once.topics[last].name == name);
        assert forall|k: int| 0 <= k < last implies !pred(#[trigger] once.topics[k]) by {
            assert(once.topics[k] == s.topics[k]);
        }
        crate::seqs::lemma_first_where_is(once.topics, pred, last);
    }
}

/// Whether the topic reads `name`.
fn topic_named(t: &Topic, name: &str) -> (yes: bool)
    ensures
        yes == (t@.name == name@),
{
    str_equal(t.name().as_str(), name)
}

/// Publishes into topic `i`.
fn publish_into(topics: &mut Vec<Topic>, i: usize, message: Message, ids: &Vec<MessageId>) -> (res:
    Result<(), NsqError>)
    requires
        i < old(topics)@.len(),
        old(topics)@[i as int]@.wf(),
    ensures
        final(topics)@.len() == old(topics)@.len(),
        topic_views(final(topics)@) == topic_views(old(topics)@).update(
            i as int,
            old(topics)@[i as int]@.after_publish(message@, ids@),
        ),
        final(topics)@[i as int]@.wf(),
        res is Ok <==> old(topics)@[i as int]@.takes(message@),
        res is Err ==> res->Err_0 is Queue || res->Err_0 is Validation,
{
    let ghost before = topic_views(topics@);
    let res = topics[i].publish_with_ids(message, ids);
    proof {
        assert(topic_views(topics@) =~= before.update(
            i as int,
            before[i as int].after_publish(message@, ids@),
        ));
    }
    res
}

/// Applies `op` to the channel `channel` of topic `i`.
fn apply_in(topics: &mut Vec<Topic>, i: usize, channel: &str, op: ChannelOp, now: u64) -> (res:
    Result<Option<Delivery>, NsqError>)
    requires
        i < old(topics)@.len(),
        old(topics)@[i as int]@.wf(),
    ensures
        final(topics)@.len() == old(topics)@.len(),
        final(topics)@[i as int]@.wf(),
        final(topics)@[i as int]@.name == old(topics)@[i as int]@.name,
        ({
            let t = old(topics)@[i as int]@;
            if t.has_channel(channel@) {
                let at = find_channel(t.channels, channel@);
                let c = t.channels[at];
                &&& topic_views(final(topics)@) == topic_views(old(topics)@).update(
                    i as int,
                    t.after_op(at, op, now),
                )
                &&& res is Ok <==> c.admits(op)
                &&& res is Err ==> res->Err_0 is Queue
                &&& res is Ok ==> (res->Ok_0 is Some <==> c.delivers(op, t.paused))
                &&& res is Ok && res->Ok_0 is Some ==> res->Ok_0->Some_0.message@
                    == c.queue.pending[0] && res->Ok_0->Some_0.client_id
                    == c.subscribers[c.chosen()->Some_0].client_id
            } else {
                &&& topic_views(final(topics)@) == topic_views(old(topics)@)
                &&& res is Err && res->Err_0 is Validation
            }
        }),
{
    let ghost before = topic_views(topics@);
    let res = topics[i].apply(channel, op, now);
    proof {
        let t = before[i as int];
        if t.has_channel(channel@) {
            assert(topic_views(topics@) =~= before.update(
                i as int,
                t.after_op(find_channel(t.channels, channel@), op, now),
            ));
        } else {
            assert(topic_views(topics@) =~= before);
        }
    }
    res
}

/// Sweeps topic `i` at `now`.
fn tick_one(topics: &mut Vec<Topic>, i: usize, now: u64)
    requires
        i < old(topics)@.len(),
        old(topics)@[i as int]@.wf(),
    ensures
        final(topics)@.len() == old(topics)@.len(),
        final(topics)@[i as int]@.wf(),
        topic_views(final(topics)@) == topic_views(old(topics)@).update(
            i as int,
            old(topics)@[i as int]@.after_process_deferred(now).after_cleanup(now),
        ),
{
    let ghost before = topic_views(topics@);
    let _ = topics[i].process_deferred_at(now);
    let _ = topics[i].cleanup_timeouts_at(now);
    proof {
        assert(topic_views(topics@) =~= before.update(
            i as int,
            before[i as int].after_process_deferred(now).after_cleanup(now),
        ));
    }
}

/// Removes client `id` from topic `i`.
fn release_one(topics: &mut Vec<Topic>, i: usize, id: ClientId)
    requires
        i < old(topics)@.len(),
        old(topics)@[i as int]@.wf(),
    ensures
        final(topics)@.len() == old(topics)@.len(),
        final(topics)@[i as int]@.wf(),
        holds_nothing(final(topics)@[i as int]@.channels, id),
        topic_views(final(topics)@) == topic_views(old(topics)@).update(
            i as int,
            old(topics)@[i as int]@.after_remove_client(id),
        ),
{
    let ghost before = topic_views(topics@);
    topics[i].remove_client(id);
    proof {
        assert(topic_views(topics@) =~= before.update(
            i as int,
            before[i as int].after_remove_client(id),
        ));
    }
}

/// Adds a channel to topic `i`.
fn add_channel_in(topics: &mut Vec<Topic>, i: usize, channel: &str, now: u64) -> (res: Result<
    (),
    NsqError,
>)
    requires
        i < old(topics)@.len(),
        old(topics)@[i as int]@.wf(),
    ensures
        final(topics)@.len() == old(topics)@.len(),
        final(topics)@[i as int]@.wf(),
        final(topics)@[i as int]@.name == old(topics)@[i as int]@.name,
        topic_views(final(topics)@) == topic_views(old(topics)@).update(
            i as int,
            old(topics)@[i as int]@.after_add_channel(channel@, now),
        ),
        res is Ok <==> old(topics)@[i as int]@.can_add(channel@),
        res is Err ==> res->Err_0 is Validation,
{
    let ghost before = topic_views(topics@);
    let res = topics[i].add_channel_at(String::from_str(channel), now);
    proof {
        assert(topic_views(topics@) =~= before.update(
            i as int,
            before[i as int].after_add_channel(channel@, now),
        ));
    }
    res
}

/// Adds a channel that was found on disk to topic `i`.
fn restore_channel_in(topics: &mut Vec<Topic>, i: usize, channel: &str, disk: DiskQueue, now: u64)
    -> (res: Result<(), NsqError>)
    requires
        i < old(topics)@.len(),
        old(topics)@[i as int]@.wf(),
    ensures
        final(topics)@.len() == old(topics)@.len(),
        final(topics)@[i as int]@.wf(),
        final(topics)@[i as int]@.name == old(topics)@[i as int]@.name,
        topic_views(final(topics)@) == topic_views(old(topics)@).update(
            i as int,
            old(topics)@[i as int]@.after_restore_channel(channel@, disk@, now),
        ),
        res is Ok <==> old(topics)@[i as int]@.can_restore(channel@),
        res is Err ==> res->Err_0 is Validation,
{
    let ghost before = topic_views(topics@);
    let ghost found = disk@;
    let res = topics[i].restore_channel_at(String::from_str(channel), disk, now);
    proof {
        assert(topic_views(topics@) =~= before.update(
            i as int,
            before[i as int].after_restore_channel(channel@, found, now),
        ));
    }
    res
}

/// Removes a channel from topic `i`.
fn remove_channel_in(topics: &mut Vec<Topic>, i: usize, channel: &str) -> (res: Result<(), NsqError>)
    requires
        i < old(topics)@.len(),
        old(topics)@[i as int]@.wf(),
    ensures
        final(topics)@.len() == old(topics)@.len(),
        final(topics)@[i as int]@.wf(),
        final(topics)@[i as int]@.name == old(topics)@[i as int]@.name,
        topic_views(final(topics)@) == topic_views(old(topics)@).update(
            i as int,
            old(topics)@[i as int]@.after_remove_channel(channel@),
        ),
        res is Ok <==> old(topics)@[i as int]@.has_channel(channel@),
        res is Err ==> res->Err_0 is Validation,
{
    let ghost before = topic_views(topics@);
    let res = topics[i].remove_channel(channel);
    proof {
        assert(topic_views(topics@) =~= before.update(
            i as int,
            before[i as int].after_remove_channel(channel@),
        ));
    }
    res
}

/// Pauses or unpauses topic `i`.
fn set_paused_in(topics: &mut Vec<Topic>, i: usize, paused: bool)
    requires
        i < old(topics)@.len(),
        old(topics)@[i as int]@.wf(),
    ensures
        final(topics)@.len() == old(topics)@.len(),
        final(topics)@[i as int]@.wf(),
        final(topics)@[i as int]@.name == old(topics)@[i as int]@.name,
        topic_views(final(topics)@) == topic_views(old(topics)@).update(
            i as int,
            if paused {
                old(topics)@[i as int]@.after_pause()
            } else {
                old(topics)@[i as int]@.after_unpause()
            },
        ),
{
    let ghost before = topic_views(topics@);
    if paused {
        let _ = topics[i].pause();
    } else {
        let _ = topics[i].unpause();
    }
    proof {
        crate::topic::lemma_pause_laws(before[i as int]);
        assert(topic_views(topics@) =~= before.update(
            i as int,
            if paused {
                before[i as int].after_pause()
            } else {
                before[i as int].after_unpause()
            },
        ));
    }
}

/// Replacing one topic of a well-formed broker by a well-formed topic of
/// the same name leaves the broker well-formed.
proof fn lemma_update_keeps_wf(s: ServerView, i: int, t: TopicView)
    requires
        s.wf(),
        0 <= i < s.topics.len(),
        t.wf(),
        t.name == s.topics[i].name,
    ensures
        (ServerView { topics: s.topics.update(i, t), ..s }).wf(),
{
    let after = s.topics.update(i, t);
    assert forall|a: int, b: int| 0 <= a < b < after.len() implies (#[trigger] after[a]).name != (
    #[trigger] after[b]).name by {
        assert(s.topics[a].name != s.topics[b].name);
    }
    assert forall|k: int| 0 <= k < after.len() implies (#[trigger] after[k]).wf() by {
        if k != i {
            assert(s.topics[k].wf());
        }
    }
}

/// Hands over the disk writes of a channel of topic `i`.
fn take_writes_in(topics: &mut Vec<Topic>, i: usize, channel: &str) -> (writes: Vec<DiskWrite>)
    requires
        i < old(topics)@.len(),
        old(topics)@[i as int]@.wf(),
    ensures
        final(topics)@.len() == old(topics)@.len(),
        final(topics)@[i as int]@.wf(),
        final(topics)@[i as int]@.name == old(topics)@[i as int]@.name,
        ({
            let t = old(topics)@[i as int]@;
            if t.has_channel(channel@) {
                let at = find_channel(t.channels, channel@);
                &&& crate::message_queue::write_views(writes@) == t.channels[at].queue.spill
                &&& topic_views(final(topics)@) == topic_views(old(topics)@).update(
                    i as int,
                    t.after_take_writes(at),
                )
            } else {
                writes@.len() == 0 && topic_views(final(topics)@) == topic_views(old(topics)@)
            }
        }),
{
    let ghost before = topic_views(topics@);
    let writes = topics[i].take_disk_writes(channel);
    proof {
        let t = before[i as int];
        if t.has_channel(channel@) {
            assert(topic_views(topics@) =~= before.update(
                i as int,
                t.after_take_writes(find_channel(t.channels, channel@)),
            ));
        } else {
            assert(topic_views(topics@) =~= before);
        }
    }
    writes
}

/// Hands over the disk writes of the backlog of topic `i`.
fn take_backlog_writes_in(topics: &mut Vec<Topic>, i: usize) -> (writes: Vec<DiskWrite>)
    requires
        i < old(topics)@.len(),
        old(topics)@[i as int]@.wf(),
    ensures
        final(topics)@.len() == old(topics)@.len(),
        final(topics)@[i as int]@.wf(),
        final(topics)@[i as int]@.name == old(topics)@[i as int]@.name,
        crate::message_queue::write_views(writes@) == old(topics)@[i as int]@.backlog.spill,
        topic_views(final(topics)@) == topic_views(old(topics)@).update(
            i as int,
            TopicView {
                backlog: QueueView { spill: Seq::empty(), ..old(topics)@[i as int]@.backlog },
                ..old(topics)@[i as int]@
            },
        ),
{
    let ghost before = topic_views(topics@);
    let writes = topics[i].take_backlog_disk_writes();
    proof {
        assert(topic_views(topics@) =~= before.update(
            i as int,
            TopicView {
                backlog: QueueView { spill: Seq::empty(), ..before[i as int].backlog },
                ..before[i as int]
            },
        ));
    }
    writes
}

/// Lets the backlog of topic `i` give up records that were planned for disk.
fn give_up_backlog_in(topics: &mut Vec<Topic>, i: usize, file_num: u64, offset: u64, lost: u64)
    -> (done: bool)
    requires
        i < old(topics)@.len(),
        old(topics)@[i as int]@.wf(),
    ensures
        final(topics)@.len() == old(topics)@.len(),
        final(topics)@[i as int]@.wf(),
        final(topics)@[i as int]@.name == old(topics)@[i as int]@.name,
        done == old(topics)@[i as int]@.backlog.can_give_up(file_num, offset, lost),
        topic_views(final(topics)@) == topic_views(old(topics)@).update(
            i as int,
            TopicView {
                backlog: old(topics)@[i as int]@.backlog.after_give_up(file_num, offset, lost),
                ..old(topics)@[i as int]@
            },
        ),
{
    let ghost before = topic_views(topics@);
    let done = topics[i].give_up_backlog_disk_writes(file_num, offset, lost);
    proof {
        assert(topic_views(topics@) =~= before.update(
            i as int,
            TopicView {
                backlog: before[i as int].backlog.after_give_up(file_num, offset, lost),
                ..before[i as int]
            },
        ));
    }
    done
}

/// Lets a channel of topic `i` give up records that were planned for disk.
fn give_up_in(
    topics: &mut Vec<Topic>,
    i: usize,
    channel: &str,
    file_num: u64,
    offset: u64,
    lost: u64,
) -> (done: bool)
    requires
        i < old(topics)@.len(),
        old(topics)@[i as int]@.wf(),
    ensures
        final(topics)@.len() == old(topics)@.len(),
        final(topics)@[i as int]@.wf(),
        final(topics)@[i as int]@.name == old(topics)@[i as int]@.name,
        ({
            let t = old(topics)@[i as int]@;
            if t.has_channel(channel@) {
                let at = find_channel(t.channels, channel@);
                &&& done == t.channels[at].queue.can_give_up(file_num, offset, lost)
                &&& topic_views(final(topics)@) == topic_views(old(topics)@).update(
                    i as int,
                    t.after_give_up(at, file_num, offset, lost),
                )
            } else {
                !done && topic_views(final(topics)@) == topic_views(old(topics)@)
            }
        }),
{
    let ghost before = topic_views(topics@);
    let done = topics[i].give_up_disk_writes(channel, file_num, offset, lost);
    proof {
        let t = before[i as int];
        if t.has_channel(channel@) {
            assert(topic_views(topics@) =~= before.update(
                i as int,
                t.after_give_up(find_channel(t.channels, channel@), file_num, offset, lost),
            ));
        } else {
            assert(topic_views(topics@) =~= before);
        }
    }
    done
}

/// Lets a channel of topic `i` read from its disk backing.
fn read_disk_in(topics: &mut Vec<Topic>, i: usize, channel: &str, segment: &[u8]) -> (res: Result<
    bool,
    NsqError,
>)
    requires
        i < old(topics)@.len(),
        old(topics)@[i as int]@.wf(),
    ensures
        final(topics)@.len() == old(topics)@.len(),
        final(topics)@[i as int]@.wf(),
        final(topics)@[i as int]@.name == old(topics)@[i as int]@.name,
        ({
            let t = old(topics)@[i as int]@;
            if t.has_channel(channel@) {
                &&& topic_views(final(topics)@) == topic_views(old(topics)@).update(
                    i as int,
                    t.after_read_disk(find_channel(t.channels, channel@), segment@),
                )
                &&& read_gave(
                    res,
                    t.channels[find_channel(t.channels, channel@)].queue.read_back(segment@),
                )
            } else {
                &&& topic_views(final(topics)@) == topic_views(old(topics)@)
                &&& res is Err && res->Err_0 is Validation
            }
        }),
{
    let ghost before = topic_views(topics@);
    let res = topics[i].read_disk(channel, segment);
    proof {
        let t = before[i as int];
        if t.has_channel(channel@) {
            assert(topic_views(topics@) =~= before.update(
                i as int,
                t.after_read_disk(find_channel(t.channels, channel@), segment@),
            ));
        } else {
            assert(topic_views(topics@) =~= before);
        }
    }
    res
}

/// Publishes a batch into topic `i`.
fn publish_all_into(
    topics: &mut Vec<Topic>,
    i: usize,
    messages: Vec<Message>,
    ids: &Vec<Vec<MessageId>>,
) -> (res: Result<(), NsqError>)
    requires
        i < old(topics)@.len(),
        old(topics)@[i as int]@.wf(),
    ensures
        final(topics)@.len() == old(topics)@.len(),
        final(topics)@[i as int]@.wf(),
        final(topics)@[i as int]@.name == old(topics)@[i as int]@.name,
        topic_views(final(topics)@) == topic_views(old(topics)@).update(
            i as int,
            old(topics)@[i as int]@.after_publish_all(message_views(messages@), id_rows(ids@)),
        ),
        res is Ok <==> old(topics)@[i as int]@.takes_all(message_views(messages@)),
        res is Err ==> res->Err_0 is Queue,
{
    let ghost before = topic_views(topics@);
    let ghost ms = message_views(messages@);
    let res = topics[i].publish_multiple_with_ids(messages, ids);
    proof {
        crate::topic::lemma_publish_keeps_name(before[i as int], ms, id_rows(ids@));
        assert(topic_views(topics@) =~= before.update(
            i as int,
            before[i as int].after_publish_all(ms, id_rows(ids@)),
        ));
    }
    res
}

/// Publishes a deferred message into topic `i`.
fn publish_deferred_into(
    topics: &mut Vec<Topic>,
    i: usize,
    message: Message,
    ids: &Vec<MessageId>,
    ready_at: u64,
) -> (res: Result<(), NsqError>)
    requires
        i < old(topics)@.len(),
        old(topics)@[i as int]@.wf(),
    ensures
        final(topics)@.len() == old(topics)@.len(),
        final(topics)@[i as int]@.wf(),
        final(topics)@[i as int]@.name == old(topics)@[i as int]@.name,
        topic_views(final(topics)@) == topic_views(old(topics)@).update(
            i as int,
            old(topics)@[i as int]@.after_publish_deferred(message@, ids@, ready_at),
        ),
        res is Ok <==> old(topics)@[i as int]@.takes_deferred(message@),
        res is Err ==> res->Err_0 is Queue || res->Err_0 is Validation,
{
    let ghost before = topic_views(topics@);
    let res = topics[i].publish_deferred_with_ids(message, ids, ready_at);
    proof {
        assert(topic_views(topics@) =~= before.update(
            i as int,
            before[i as int].after_publish_deferred(message@, ids@, ready_at),
        ));
    }
    res
}

/// The sum of the lengths of the first `n` bodies.
proof fn lemma_total_len_grows(ms: Seq<MessageView>, n: int)
    requires
        1 <= n <= ms.len(),
    ensures
        total_len(ms.take(n)) == total_len(ms.take(n - 1)) + ms[n - 1].body.len(),
        total_len(ms.take(n)) <= total_len(ms),
    decreases ms.len() - n,
{
    assert(ms.take(n).drop_last() =~= ms.take(n - 1));
    assert(ms.take(n).last() == ms[n - 1]);
    if n < ms.len() {
        lemma_total_len_grows(ms, n + 1);
    } else {
        assert(ms.take(n) =~= ms);
    }
}

/// Takes the settings out of a client record, leaving defaults.
fn take_info(client: &mut Client) -> (info: ClientInfo)
    ensures
        info == old(client)@.info,
        final(client)@.state == old(client)@.state,
        final(client)@.topic == old(client)@.topic,
        final(client)@.channel == old(client)@.channel,
        final(client)@.rdy_count == old(client)@.rdy_count,
        final(client)@.last_message_time == old(client)@.last_message_time,
        final(client)@.in_flight == old(client)@.in_flight,
        final(client)@.stats == old(client)@.stats,
        final(client)@.last_sent == old(client)@.last_sent,
        final(client)@.missed_heartbeats == old(client)@.missed_heartbeats,
{
    client.replace_info(ClientInfo::default())
}

/// An operation on a channel that does not exist changes nothing.
proof fn lemma_failed_apply(s: ServerView, topic: Seq<char>, channel: Seq<char>, op: ChannelOp, now: u64)
    ensures
        s.channel(topic, channel) is None ==> s.after_channel_op(topic, channel, op, now) == s,
{
}

/// The identifier that a command names is the one its bytes spell.
proof fn lemma_message_op_id(
    s: ServerView,
    id: ClientId,
    bytes: Seq<u8>,
    mid: MessageId,
    delay: u64,
    now: u64,
)
    requires
        bytes.len() == MESSAGE_ID_LEN ==> mid == id_from_bytes(bytes),
    ensures
        s.message_reply(id, bytes, ChannelOp::Finish(mid), ErrorCode::FinFailed) == s.message_reply(
            id,
            bytes,
            ChannelOp::Finish(id_from_bytes(bytes)),
            ErrorCode::FinFailed,
        ),
        s.after_message_op(id, bytes, ChannelOp::Finish(mid), now) == s.after_message_op(
            id,
            bytes,
            ChannelOp::Finish(id_from_bytes(bytes)),
            now,
        ),
        s.message_reply(id, bytes, ChannelOp::Touch(mid), ErrorCode::TouchFailed)
            == s.message_reply(
            id,
            bytes,
            ChannelOp::Touch(id_from_bytes(bytes)),
            ErrorCode::TouchFailed,
        ),
        s.after_message_op(id, bytes, ChannelOp::Touch(mid), now) == s.after_message_op(
            id,
            bytes,
            ChannelOp::Touch(id_from_bytes(bytes)),
            now,
        ),
        s.message_reply(id, bytes, ChannelOp::Requeue { id: mid, delay }, ErrorCode::ReqFailed)
            == s.message_reply(
            id,
            bytes,
            ChannelOp::Requeue { id: id_from_bytes(bytes), delay },
            ErrorCode::ReqFailed,
        ),
        s.after_message_op(id, bytes, ChannelOp::Requeue { id: mid, delay }, now)
            == s.after_message_op(
            id,
            bytes,
            ChannelOp::Requeue { id: id_from_bytes(bytes), delay },
            now,
        ),
{
}

/// Whether the broker takes a message depends on its body alone.
proof fn lemma_takes_any_identity(s: ServerView, topic: Seq<char>, m: MessageView, now: u64)
    ensures
        s.takes(topic, m, now) == s.takes(topic, with_body(m.body), now),
{
    let made = s.after_create_topic(topic, now);
    let t = made.topics[made.topic_at(topic)];
    let plain = with_body(m.body);
    assert(crate::message::message_wire_len(m) == crate::message::message_wire_len(plain));
    assert(t.backlog.accepts(m) == t.backlog.accepts(plain));
    if t.channels.len() > 0 {
        assert forall|k: int| 0 <= k < t.channels.len() implies (
        #[trigger] t.channels[k]).queue.accepts(m) == t.channels[k].queue.accepts(plain) by {}
        if t.takes(m) {
            assert forall|k: int| 0 <= k < t.channels.len() implies (
            #[trigger] t.channels[k]).queue.accepts(plain) by {
                assert(t.channels[k].queue.accepts(m));
            }
        }
        if t.takes(plain) {
            assert forall|k: int| 0 <= k < t.channels.len() implies (
            #[trigger] t.channels[k]).queue.accepts(m) by {
                assert(t.channels[k].queue.accepts(plain));
            }
        }
    }
}

/// Removing a client does not depend on what its record holds.
proof fn lemma_remove_ignores_record(s: ServerView, id: ClientId, c: ClientView)
    requires
        s.has_client(id),
        c.info.id == id,
    ensures
        s.with_client(id, c).after_remove_client(id) == s.after_remove_client(id),
{
    let pred = |c: ClientView| c.info.id != id;
    let i = s.client_at(id);
    lemma_first_where(s.clients, |c: ClientView| c.info.id == id);
    lemma_filter_update(s.clients, pred, i, c);
}

/// Replacing an element that fails a test by another that fails it leaves
/// the filter as it is.
proof fn lemma_filter_update<T>(s: Seq<T>, pred: spec_fn(T) -> bool, i: int, x: T)
    requires
        0 <= i < s.len(),
        !pred(s[i]),
        !pred(x),
    ensures
        s.update(i, x).filter(pred) == s.filter(pred),
    decreases s.len(),
{
    reveal(Seq::filter);
    if i == s.len() - 1 {
        assert(s.update(i, x).drop_last() =~= s.drop_last());
    } else {
        assert(s.update(i, x).drop_last() =~= s.drop_last().update(i, x));
        lemma_filter_update(s.drop_last(), pred, i, x);
    }
}

/// In a well-formed broker only well-formed names name topics.
proof fn lemma_named_topics_are_valid(s: ServerView, name: Seq<char>)
    requires
        s.wf(),
    ensures
        s.has_topic(name) ==> valid_name(encode_utf8(name)),
{
    lemma_first_where(s.topics, |t: TopicView| t.name == name);
    if s.has_topic(name) {
        assert(s.topics[s.topic_at(name)].wf());
    }
}

/// A dispatch that hands out nothing changes nothing.
proof fn lemma_idle_dispatch(s: ServerView, topic: Seq<char>, channel: Seq<char>, now: u64)
    ensures
        !s.delivers(topic, channel) ==> s.after_channel_op(topic, channel, ChannelOp::Dispatch, now)
            == s,
{
    if !s.delivers(topic, channel) && s.channel(topic, channel) is Some {
        let i = s.topic_at(topic);
        let t = s.topics[i];
        let at = find_channel(t.channels, channel);
        crate::topic::lemma_find_channel(t.channels, channel);
        lemma_first_where(s.topics, |t: TopicView| t.name == topic);
        let c = t.channels[at];
        assert(c.after_op(ChannelOp::Dispatch, now, t.paused) == c);
        assert(t.channels.update(at, c) =~= t.channels);
        assert(t.after_op(at, ChannelOp::Dispatch, now) == t);
        assert(s.topics.update(i, t) =~= s.topics);
    }
}

impl NsqdServer {
    /// A broker without topics and clients that enforces the limits of
    /// `config`. Its queues overflow to disk where `config` names a data
    /// path.
    pub fn new(config: NsqdConfig) -> (res: Result<NsqdServer, NsqError>)
        ensures
            res is Ok,
            res->Ok_0.settings() == config,
            res->Ok_0@.wf(),
            res->Ok_0@.topics.len() == 0,
            res->Ok_0@.clients.len() == 0,
            res->Ok_0@.limits == (Limits {
                mem_queue_size: config.mem_queue_size,
                max_msg_size: config.max_msg_size,
                max_body_size: config.max_body_size,
                max_req_timeout: config.max_req_timeout,
                max_msg_timeout: config.max_msg_timeout,
                msg_timeout: config.msg_timeout,
                max_rdy_count: config.max_rdy_count,
                max_output_buffer_size: config.max_output_buffer_size,
                max_output_buffer_timeout: config.max_output_buffer_timeout,
                disk_backed: config.data_path@.len() > 0,
                max_file_size: config.max_file_size,
            }),
    {
        let limits = Limits {
            mem_queue_size: config.mem_queue_size,
            max_msg_size: config.max_msg_size,
            max_body_size: config.max_body_size,
            max_req_timeout: config.max_req_timeout,
            max_msg_timeout: config.max_msg_timeout,
            msg_timeout: config.msg_timeout,
            max_rdy_count: config.max_rdy_count,
            max_output_buffer_size: config.max_output_buffer_size,
            max_output_buffer_timeout: config.max_output_buffer_timeout,
            disk_backed: config.data_path.as_str().unicode_len() > 0,
            max_file_size: config.max_file_size,
        };
        Ok(NsqdServer { config, limits, topics: Vec::new(), clients: Vec::new() })
    }

    /// The limits that the broker enforces.
    pub fn limits(&self) -> (limits: Limits)
        ensures
            limits == self@.limits,
    {
        self.limits
    }

    /// The settings that the broker was made with.
    pub closed spec fn settings(self) -> NsqdConfig {
        self.config
    }

    /// The settings that the broker was made with.
    pub fn config(&self) -> (config: &NsqdConfig)
        ensures
            *config == self.settings(),
    {
        &self.config
    }

    /// The index of the topic called `name`.
    pub fn topic_index(&self, name: &str) -> (res: Option<usize>)
        ensures
            res is Some <==> self@.has_topic(name@),
            res is Some ==> res->Some_0 == self@.topic_at(name@) && res->Some_0
                < self@.topics.len(),
    {
        let ghost pred = |t: Topic| t@.name == name@;
        let test = |t: &Topic| -> (r: bool)
            ensures
                r == (t@.name == name@),
            {
                let same = topic_named(t, name);
                same
            };
        let found = position(&self.topics, test, Ghost(pred));
        proof {
            lemma_first_where_map(self.topics@, |t: Topic| t@, |t: TopicView| t.name == name@);
            assert(pred =~= (|x: Topic| (|t: TopicView| t.name == name@)((|t: Topic| t@)(x))));
        }
        found
    }

    /// The topic called `name`, if the broker has it.
    pub fn get_topic(&self, name: &str) -> (res: Option<&Topic>)
        ensures
            res is Some <==> self@.has_topic(name@),
            res is Some ==> res->Some_0@ == self@.topics[self@.topic_at(name@)],
    {
        match self.topic_index(name) {
            Some(i) => Some(&self.topics[i]),
            None => None,
        }
    }

    /// The topics of the broker, in the order in which they were made.
    pub fn topics(&self) -> (topics: &Vec<Topic>)
        ensures
            topic_views(topics@) == self@.topics,
    {
        &self.topics
    }

    /// The clients of the broker.
    pub fn clients(&self) -> (clients: &Vec<Client>)
        ensures
            client_views(clients@) == self@.clients,
    {
        &self.clients
    }

    /// Makes the topic called `name`, unless it exists.
    pub fn get_or_create_topic(&mut self, name: &str) -> (res: Result<(), NsqError>)
        requires
            old(self)@.wf(),
        ensures
            final(self)@.wf(),
            res is Ok <==> valid_name(encode_utf8(name@)),
            res is Err ==> res->Err_0 is Validation,
            res is Ok ==> final(self)@.has_topic(name@),
            exists|now: u64| final(self)@ == old(self)@.after_create_topic(name@, now),
    {
        let now = now_millis();
        let res = self.create_topic_at(name, now);
        proof {
            assert(final(self)@ == old(self)@.after_create_topic(name@, now));
        }
        res
    }

    /// Makes the topic called `name` at `now`, unless it exists. A name that
    /// is not well-formed is a validation error.
    pub fn create_topic_at(&mut self, name: &str, now: u64) -> (res: Result<(), NsqError>)
        requires
            old(self)@.wf(),
        ensures
            final(self)@.wf(),
            final(self)@ == old(self)@.after_create_topic(name@, now),
            res is Ok <==> valid_name(encode_utf8(name@)),
            res is Err ==> res->Err_0 is Validation,
            res is Ok ==> final(self)@.has_topic(name@),
    {
        match validate_topic_channel_name(name) {
            Ok(()) => {},
            Err(e) => {
                return Err(e);
            },
        }
        if self.topic_index(name).is_some() {
            return Ok(());
        }
        let disk = if self.limits.disk_backed {
            Some(DiskQueue::new(self.limits.max_file_size, usize::MAX))
        } else {
            None
        };
        let topic = match Topic::new_at(
            String::from_str(name),
            self.limits.mem_queue_size,
            disk,
            now,
        ) {
            Ok(topic) => topic,
            Err(e) => {
                return Err(e);
            },
        };
        let ghost before = topic_views(self.topics@);
        self.topics.push(topic);
        proof {
            assert(topic_views(self.topics@) =~= before.push(topic@));
            lemma_first_where(before, |t: TopicView| t.name == name@);
            lemma_create_topic_twice(old(self)@, name@, now, now);
            assert forall|i: int, j: int| 0 <= i < j < self@.topics.len() implies (
            #[trigger] self@.topics[i]).name != (#[trigger] self@.topics[j]).name by {
                if j < before.len() {
                    assert(before[i].name != before[j].name);
                } else {
                    assert(self@.topics[i] == before[i]);
                }
            }
            assert forall|i: int| 0 <= i < self@.topics.len() implies (
            #[trigger] self@.topics[i]).wf() by {
                if i < before.len() {
                    assert(before[i].wf());
                }
            }
        }
        Ok(())
    }

    /// Restores the topic called `name` at `now` with the disk backing
    /// `disk` of its backlog, as it was found on disk: the records that wait
    /// there count as published, and the first channel of the topic will
    /// take them over.
    ///
    /// A name that is not well-formed and a topic that exists are validation
    /// errors and change nothing.
    pub fn restore_topic_at(&mut self, name: &str, disk: DiskQueue, now: u64) -> (res: Result<
        (),
        NsqError,
    >)
        requires
            old(self)@.wf(),
        ensures
            final(self)@.wf(),
            final(self)@ == old(self)@.after_restore_topic(name@, disk@, now),
            res is Ok <==> valid_name(encode_utf8(name@)) && !old(self)@.has_topic(name@),
            res is Err ==> res->Err_0 is Validation,
    {
        match validate_topic_channel_name(name) {
            Ok(()) => {},
            Err(e) => {
                return Err(e);
            },
        }
        if self.topic_index(name).is_some() {
            return Err(NsqError::Validation(String::from_str("Topic already exists")));
        }
        let topic = match Topic::new_at(
            String::from_str(name),
            self.limits.mem_queue_size,
            Some(disk),
            now,
        ) {
            Ok(topic) => topic,
            Err(e) => {
                return Err(e);
            },
        };
        let ghost before = topic_views(self.topics@);
        self.topics.push(topic);
        proof {
            assert(topic_views(self.topics@) =~= before.push(topic@));
            lemma_first_where(before, |t: TopicView| t.name == name@);
            assert forall|i: int, j: int| 0 <= i < j < self@.topics.len() implies (
            #[trigger] self@.topics[i]).name != (#[trigger] self@.topics[j]).name by {
                if j < before.len() {
                    assert(before[i].name != before[j].name);
                } else {
                    assert(self@.topics[i] == before[i]);
                }
            }
            assert forall|i: int| 0 <= i < self@.topics.len() implies (
            #[trigger] self@.topics[i]).wf() by {
                if i < before.len() {
                    assert(before[i].wf());
                }
            }
        }
        Ok(())
    }

    /// Deletes the topic called `name`, with its channels and every message.
    /// A topic that does not exist is no error.
    pub fn delete_topic(&mut self, name: &str) -> (res: Result<(), NsqError>)
        requires
            old(self)@.wf(),
        ensures
            res is Ok,
            final(self)@.wf(),
            final(self)@ == old(self)@.after_delete_topic(name@),
    {
        match self.topic_index(name) {
            Some(i) => {
                let ghost before = topic_views(self.topics@);
                proof {
                    assert(self@.topics[i as int].wf());
                }
                let mut topic = self.topics.remove(i);
                let _ = topic.delete();
                proof {
                    assert(topic_views(self.topics@) =~= before.remove(i as int));
                    assert forall|a: int, b: int| 0 <= a < b < self@.topics.len() implies (
                    #[trigger] self@.topics[a]).name != (#[trigger] self@.topics[b]).name by {
                        let a0 = if a < i { a } else { a + 1 };
                        let b0 = if b < i { b } else { b + 1 };
                        assert(self@.topics[a] == before[a0]);
                        assert(self@.topics[b] == before[b0]);
                    }
                    assert forall|k: int| 0 <= k < self@.topics.len() implies (
                    #[trigger] self@.topics[k]).wf() by {
                        let k0 = if k < i { k } else { k + 1 };
                        assert(self@.topics[k] == before[k0]);
                    }
                }
            },
            None => {},
        }
        Ok(())
    }

    /// Publishes `message` to the topic called `topic_name` at `now`, with
    /// the identifiers `ids` for the copies of the channels after the first.
    ///
    /// A name that is not well-formed and a body over the message limit are
    /// validation errors, and change nothing. Else the topic is made where
    /// it does not exist; a topic that does not take the message is a queue
    /// error, and nothing is published.
    pub fn publish_message_at(
        &mut self,
        topic_name: &str,
        message: Message,
        ids: &Vec<MessageId>,
        now: u64,
    ) -> (res: Result<(), NsqError>)
        requires
            old(self)@.wf(),
        ensures
            final(self)@.wf(),
            res is Ok <==> old(self)@.takes(topic_name@, message@, now),
            final(self)@ == old(self)@.after_publish(topic_name@, message@, ids@, now),
            !valid_name(encode_utf8(topic_name@)) || message@.body.len() > old(
                self,
            )@.limits.max_msg_size ==> res is Err && res->Err_0 is Validation,
            res is Err ==> res->Err_0 is Validation || res->Err_0 is Queue,
    {
        if validate_topic_channel_name(topic_name).is_err() {
            return Err(NsqError::Validation(String::from_str("Invalid topic name")));
        }
        if message.body.len() > self.limits.max_msg_size {
            return Err(NsqError::Validation(String::from_str("Message too large")));
        }
        let _ = self.create_topic_at(topic_name, now);
        let i = match self.topic_index(topic_name) {
            Some(i) => i,
            None => {
                return Err(NsqError::Queue(String::from_str("Topic not found")));
            },
        };
        let ghost before = topic_views(self.topics@);
        proof {
            assert(self@.topics[i as int].wf());
        }
        let res = publish_into(&mut self.topics, i, message, ids);
        proof {
            assert forall|a: int, b: int| 0 <= a < b < self@.topics.len() implies (
            #[trigger] self@.topics[a]).name != (#[trigger] self@.topics[b]).name by {
                assert(before[a].name != before[b].name);
            }
            assert forall|k: int| 0 <= k < self@.topics.len() implies (
            #[trigger] self@.topics[k]).wf() by {
                assert(before[k].wf());
            }
            if res is Err {
                assert(topic_views(self.topics@) =~= before);
            }
        }
        res
    }

    /// Publishes a new message with the body `body` to the topic called
    /// `topic_name`, as of now. The message gets a fresh random identifier,
    /// and so does each copy for a channel after the first.
    pub fn publish(&mut self, topic_name: &str, body: Vec<u8>) -> (res: Result<(), NsqError>)
        requires
            old(self)@.wf(),
        ensures
            final(self)@.wf(),
            !valid_name(encode_utf8(topic_name@)) || body@.len() > old(self)@.limits.max_msg_size
                ==> res is Err && res->Err_0 is Validation,
            res is Err ==> res->Err_0 is Validation || res->Err_0 is Queue,
            exists|m: MessageView, ids: Seq<MessageId>, now: u64|
                m.body == body@ && m.attempts == 0 && ids.len() == old(self)@.spare_copies(
                    topic_name@,
                ) && (res is Ok <==> #[trigger] old(self)@.takes(topic_name@, m, now))
                    && final(self)@ == #[trigger] old(self)@.after_publish(
                    topic_name@,
                    m,
                    ids,
                    now,
                ),
    {
        let message = Message::new(body);
        let ids = self.fresh_ids(topic_name);
        let now = now_millis();
        let ghost m = message@;
        let res = self.publish_message_at(topic_name, message, &ids, now);
        proof {
            let after = old(self)@.after_publish(topic_name@, m, ids@, now);
            assert(m.body == body@ && m.attempts == 0 && ids@.len() == old(self)@.spare_copies(
                topic_name@,
            ) && (res is Ok <==> old(self)@.takes(topic_name@, m, now)) && final(self)@ == after);
        }
        res
    }

    /// Applies `op` at `now` to the channel `channel` of the topic `topic`.
    ///
    /// A topic or channel that does not exist is a validation error; an
    /// operation on a message that is not in flight is a queue error; either
    /// changes nothing. `Dispatch` gives the message it handed out, if any.
    pub fn apply(&mut self, topic: &str, channel: &str, op: ChannelOp, now: u64) -> (res: Result<
        Option<Delivery>,
        NsqError,
    >)
        requires
            old(self)@.wf(),
        ensures
            final(self)@.wf(),
            final(self)@ == old(self)@.after_channel_op(topic@, channel@, op, now) || res is Err,
            res is Err ==> final(self)@ == old(self)@,
            !old(self)@.has_topic(topic@) ==> res is Err && res->Err_0 is Validation,
            old(self)@.has_topic(topic@) ==> {
                let t = old(self)@.topics[old(self)@.topic_at(topic@)];
                &&& !t.has_channel(channel@) ==> res is Err && res->Err_0 is Validation
                &&& t.has_channel(channel@) ==> {
                    let c = t.channels[find_channel(t.channels, channel@)];
                    &&& res is Ok <==> c.admits(op)
                    &&& res is Err ==> res->Err_0 is Queue
                    &&& res is Ok ==> (res->Ok_0 is Some <==> c.delivers(op, t.paused))
                    &&& res is Ok && res->Ok_0 is Some ==> res->Ok_0->Some_0.message@
                        == c.queue.pending[0] && res->Ok_0->Some_0.client_id
                        == c.subscribers[c.chosen()->Some_0].client_id
                }
            },
    {
        let i = match self.topic_index(topic) {
            Some(i) => i,
            None => {
                return Err(NsqError::Validation(String::from_str("Topic not found")));
            },
        };
        let ghost before = topic_views(self.topics@);
        proof {
            assert(self@.topics[i as int].wf());
        }
        let res = apply_in(&mut self.topics, i, channel, op, now);
        proof {
            let t = before[i as int];
            assert forall|a: int, b: int| 0 <= a < b < self@.topics.len() implies (
            #[trigger] self@.topics[a]).name != (#[trigger] self@.topics[b]).name by {
                assert(before[a].name != before[b].name);
            }
            assert forall|k: int| 0 <= k < self@.topics.len() implies (
            #[trigger] self@.topics[k]).wf() by {
                assert(before[k].wf());
            }
            if res is Err && t.has_channel(channel@) {
                let at = find_channel(t.channels, channel@);
                crate::topic::lemma_find_channel(t.channels, channel@);
                t.channels[at].lemma_failed_op(op, now, t.paused);
                assert(t.channels.update(at, t.channels[at]) =~= t.channels);
                assert(before.update(i as int, t) =~= before);
            }
        }
        res
    }

    /// The periodic sweep, as of now.
    pub fn tick(&mut self)
        requires
            old(self)@.wf(),
        ensures
            final(self)@.wf(),
            exists|now: u64| final(self)@ == old(self)@.after_tick(now),
    {
        let now = now_millis();
        self.tick_at(now);
        proof {
            assert(final(self)@ == old(self)@.after_tick(now));
        }
    }

    /// The periodic sweep at `now`: in every channel of every topic the
    /// deferred messages whose time has come become pending, and the
    /// in-flight messages that have timed out become pending again.
    pub fn tick_at(&mut self, now: u64)
        requires
            old(self)@.wf(),
        ensures
            final(self)@.wf(),
            final(self)@ == old(self)@.after_tick(now),
    {
        let ghost before = topic_views(self.topics@);
        let n = self.topics.len();
        let mut k: usize = 0;
        while k < n
            invariant
                k <= n,
                n == self.topics@.len(),
                n == before.len(),
                before == old(self)@.topics,
                old(self)@.wf(),
                forall|j: int|
                    0 <= j < k ==> #[trigger] topic_views(self.topics@)[j]
                        == before[j].after_process_deferred(now).after_cleanup(now),
                forall|j: int| k <= j < n ==> #[trigger] topic_views(self.topics@)[j] == before[j],
                forall|j: int| 0 <= j < n ==> (#[trigger] topic_views(self.topics@)[j]).wf(),
                forall|j: int|
                    0 <= j < n ==> (#[trigger] topic_views(self.topics@)[j]).name == before[j].name,
                self.clients == old(self).clients,
                self.limits == old(self).limits,
            decreases n - k,
        {
            proof {
                assert(topic_views(self.topics@)[k as int].wf());
                assert(topic_views(self.topics@)[k as int] == before[k as int]);
            }
            tick_one(&mut self.topics, k, now);
            k = k + 1;
        }
        proof {
            assert(topic_views(self.topics@) =~= before.map_values(
                |t: TopicView| t.after_process_deferred(now).after_cleanup(now),
            ));
            assert forall|a: int, b: int| 0 <= a < b < self@.topics.len() implies (
            #[trigger] self@.topics[a]).name != (#[trigger] self@.topics[b]).name by {
                assert(before[a].name != before[b].name);
            }
        }
    }

    /// Registers a client that has just connected, and gives its
    /// identifier.
    pub fn add_client(&mut self, info: ClientInfo) -> (id: ClientId)
        requires
            old(self)@.wf(),
        ensures
            final(self)@.wf(),
            id == info.id,
            exists|now: u64| final(self)@ == #[trigger] old(self)@.after_add_client(info, now),
    {
        let now = now_millis();
        let id = self.add_client_at(info, now);
        proof {
            assert(final(self)@ == old(self)@.after_add_client(info, now));
        }
        id
    }

    /// Registers a client that connected at `now`, and gives its
    /// identifier. The client is in the initial state, without credit and
    /// without messages.
    pub fn add_client_at(&mut self, info: ClientInfo, now: u64) -> (id: ClientId)
        requires
            old(self)@.wf(),
        ensures
            final(self)@.wf(),
            id == info.id,
            final(self)@ == old(self)@.after_add_client(info, now),
    {
        let id = info.id;
        let client = Client::new_at(info, now);
        let ghost before = client_views(self.clients@);
        self.clients.push(client);
        proof {
            assert(client_views(self.clients@) =~= before.push(client@));
        }
        id
    }

    /// Removes a client that left, for whatever reason.
    ///
    /// Every message that the client held in flight, in any channel, goes to
    /// the tail of the pending messages of that channel with one more attempt
    /// counted, as if the client had handed it back without delay.
    pub fn remove_client(&mut self, id: ClientId)
        requires
            old(self)@.wf(),
        ensures
            final(self)@.wf(),
            final(self)@ == old(self)@.after_remove_client(id),
            final(self)@.holds_nothing(id),
    {
        let ghost before = topic_views(self.topics@);
        let n = self.topics.len();
        let mut k: usize = 0;
        while k < n
            invariant
                k <= n,
                n == self.topics@.len(),
                n == before.len(),
                before == old(self)@.topics,
                old(self)@.wf(),
                forall|j: int|
                    0 <= j < k ==> #[trigger] topic_views(self.topics@)[j]
                        == before[j].after_remove_client(id),
                forall|j: int|
                    0 <= j < k ==> holds_nothing((#[trigger] topic_views(self.topics@)[j]).channels, id),
                forall|j: int| k <= j < n ==> #[trigger] topic_views(self.topics@)[j] == before[j],
                forall|j: int| 0 <= j < n ==> (#[trigger] topic_views(self.topics@)[j]).wf(),
                forall|j: int|
                    0 <= j < n ==> (#[trigger] topic_views(self.topics@)[j]).name == before[j].name,
                self.clients == old(self).clients,
                self.limits == old(self).limits,
            decreases n - k,
        {
            proof {
                assert(topic_views(self.topics@)[k as int].wf());
                assert(topic_views(self.topics@)[k as int] == before[k as int]);
            }
            release_one(&mut self.topics, k, id);
            k = k + 1;
        }
        let ghost pred = |c: Client| c@.info.id != id;
        let keep = |c: &Client| -> (r: bool)
            ensures
                r == (c@.info.id != id),
            {
                let own = c.info().id;
                !(own.hi == id.hi && own.lo == id.lo)
            };
        crate::seqs::retain(&mut self.clients, keep, Ghost(pred));
        proof {
            crate::seqs::lemma_map_filter(
                old(self).clients@,
                |c: Client| c@,
                |c: ClientView| c.info.id != id,
            );
            assert(pred =~= (|x: Client| (|c: ClientView| c.info.id != id)((|c: Client| c@)(x))));
            assert(topic_views(self.topics@) =~= before.map_values(
                |t: TopicView| t.after_remove_client(id),
            ));
            assert forall|a: int, b: int| 0 <= a < b < self@.topics.len() implies (
            #[trigger] self@.topics[a]).name != (#[trigger] self@.topics[b]).name by {
                assert(before[a].name != before[b].name);
            }
        }
    }

    /// Makes the channel `channel` of the topic `topic` at `now`, and the
    /// topic, unless they exist. A name that is not well-formed is a
    /// validation error; then no channel is made.
    pub fn create_channel_at(&mut self, topic: &str, channel: &str, now: u64) -> (res: Result<
        (),
        NsqError,
    >)
        requires
            old(self)@.wf(),
        ensures
            final(self)@.wf(),
            final(self)@ == old(self)@.after_create_channel(topic@, channel@, now),
            res is Ok <==> valid_name(encode_utf8(topic@)) && valid_name(encode_utf8(channel@)),
            res is Err ==> res->Err_0 is Validation,
            res is Ok ==> final(self)@.channel(topic@, channel@) is Some,
    {
        proof {
            lemma_named_topics_are_valid(self@, topic@);
        }
        match self.create_topic_at(topic, now) {
            Ok(()) => {},
            Err(e) => {
                return Err(e);
            },
        }
        let i = match self.topic_index(topic) {
            Some(i) => i,
            None => {
                return Err(NsqError::Validation(String::from_str("Topic not found")));
            },
        };
        let ghost mid = self@;
        proof {
            assert(self@.topics[i as int].wf());
        }
        let added = add_channel_in(&mut self.topics, i, channel, now);
        proof {
            let t = mid.topics[i as int];
            lemma_update_keeps_wf(mid, i as int, self@.topics[i as int]);
            crate::topic::lemma_find_channel(t.channels, channel@);
            lemma_first_where(mid.topics, |t: TopicView| t.name == topic@);
            assert(self@.topics[i as int].name == topic@);
            assert forall|k: int| 0 <= k < i implies !(|t: TopicView| t.name == topic@)(
                #[trigger] self@.topics[k],
            ) by {
                assert(self@.topics[k] == mid.topics[k]);
            }
            crate::seqs::lemma_first_where_is(
                self@.topics,
                |t: TopicView| t.name == topic@,
                i as int,
            );
            if t.can_add(channel@) {
                let grown = t.after_add_channel(channel@, now).channels;
                assert(grown[t.channels.len() as int].name == channel@);
                assert forall|k: int| 0 <= k < t.channels.len() implies grown[k].name
                    != channel@ by {
                    assert(grown[k] == t.channels[k]);
                }
                crate::topic::lemma_find_channel_is(grown, channel@, t.channels.len() as int);
            }
        }
        match validate_topic_channel_name(channel) {
            Ok(()) => Ok(()),
            Err(e) => Err(e),
        }
    }

    /// Restores the channel `channel` of the topic `topic` at `now` from the
    /// disk backing `disk`, as it was found on disk. The topic is made where
    /// it does not exist.
    ///
    /// The channel starts empty in memory, and the records that wait on disk
    /// count as published. A name that is not well-formed, a channel that
    /// exists, and a topic whose backlog waits for its first channel are
    /// validation errors; then no channel is made.
    pub fn restore_channel_at(&mut self, topic: &str, channel: &str, disk: DiskQueue, now: u64)
        -> (res: Result<(), NsqError>)
        requires
            old(self)@.wf(),
        ensures
            final(self)@.wf(),
            final(self)@ == old(self)@.after_restore_channel(topic@, channel@, disk@, now),
            res is Ok <==> old(self)@.can_restore(topic@, channel@, now),
            res is Err ==> res->Err_0 is Validation,
    {
        proof {
            lemma_named_topics_are_valid(self@, topic@);
        }
        match self.create_topic_at(topic, now) {
            Ok(()) => {},
            Err(e) => {
                return Err(e);
            },
        }
        let i = match self.topic_index(topic) {
            Some(i) => i,
            None => {
                return Err(NsqError::Validation(String::from_str("Topic not found")));
            },
        };
        let ghost mid = self@;
        proof {
            assert(self@.topics[i as int].wf());
        }
        let res = restore_channel_in(&mut self.topics, i, channel, disk, now);
        proof {
            lemma_update_keeps_wf(mid, i as int, self@.topics[i as int]);
        }
        res
    }

    /// Makes the channel `channel` of the topic `topic`, and the topic,
    /// unless they exist, as of now.
    pub fn create_channel(&mut self, topic: &str, channel: &str) -> (res: Result<(), NsqError>)
        requires
            old(self)@.wf(),
        ensures
            final(self)@.wf(),
            res is Ok <==> valid_name(encode_utf8(topic@)) && valid_name(encode_utf8(channel@)),
            res is Err ==> res->Err_0 is Validation,
            exists|now: u64| final(self)@ == old(self)@.after_create_channel(topic@, channel@, now),
    {
        let now = now_millis();
        let res = self.create_channel_at(topic, channel, now);
        proof {
            assert(final(self)@ == old(self)@.after_create_channel(topic@, channel@, now));
        }
        res
    }

    /// Deletes the channel `channel` of the topic `topic`, with every
    /// message it holds; the topic stays. A topic or channel that does not
    /// exist is a validation error.
    pub fn delete_channel(&mut self, topic: &str, channel: &str) -> (res: Result<(), NsqError>)
        requires
            old(self)@.wf(),
        ensures
            final(self)@.wf(),
            final(self)@ == old(self)@.after_delete_channel(topic@, channel@),
            res is Ok <==> old(self)@.channel(topic@, channel@) is Some,
            res is Err ==> res->Err_0 is Validation,
    {
        let i = match self.topic_index(topic) {
            Some(i) => i,
            None => {
                return Err(NsqError::Validation(String::from_str("Topic not found")));
            },
        };
        let ghost before = self@;
        proof {
            assert(self@.topics[i as int].wf());
        }
        let res = remove_channel_in(&mut self.topics, i, channel);
        proof {
            lemma_update_keeps_wf(before, i as int, self@.topics[i as int]);
        }
        res
    }

    /// Pauses the topic called `name`. A topic that does not exist is a
    /// validation error.
    pub fn pause_topic(&mut self, name: &str) -> (res: Result<(), NsqError>)
        requires
            old(self)@.wf(),
        ensures
            final(self)@.wf(),
            final(self)@ == old(self)@.after_set_paused(name@, true),
            res is Ok <==> old(self)@.has_topic(name@),
            res is Err ==> res->Err_0 is Validation,
    {
        self.set_topic_paused(name, true)
    }

    /// Unpauses the topic called `name`. A topic that does not exist is a
    /// validation error.
    pub fn unpause_topic(&mut self, name: &str) -> (res: Result<(), NsqError>)
        requires
            old(self)@.wf(),
        ensures
            final(self)@.wf(),
            final(self)@ == old(self)@.after_set_paused(name@, false),
            res is Ok <==> old(self)@.has_topic(name@),
            res is Err ==> res->Err_0 is Validation,
    {
        self.set_topic_paused(name, false)
    }

    fn set_topic_paused(&mut self, name: &str, paused: bool) -> (res: Result<(), NsqError>)
        requires
            old(self)@.wf(),
        ensures
            final(self)@.wf(),
            final(self)@ == old(self)@.after_set_paused(name@, paused),
            res is Ok <==> old(self)@.has_topic(name@),
            res is Err ==> res->Err_0 is Validation,
    {
        let i = match self.topic_index(name) {
            Some(i) => i,
            None => {
                return Err(NsqError::Validation(String::from_str("Topic not found")));
            },
        };
        proof {
            let t = self@.topics[i as int];
            assert(t.wf());
            crate::topic::lemma_pause_laws(t);
            lemma_update_keeps_wf(
                self@,
                i as int,
                if paused {
                    t.after_pause()
                } else {
                    t.after_unpause()
                },
            );
        }
        set_paused_in(&mut self.topics, i, paused);
        Ok(())
    }

    /// The index of the client `id`.
    pub fn client_index(&self, id: ClientId) -> (res: Option<usize>)
        ensures
            res is Some <==> self@.has_client(id),
            res is Some ==> res->Some_0 == self@.client_at(id) && res->Some_0
                < self@.clients.len(),
    {
        let ghost pred = |c: Client| c@.info.id == id;
        let test = |c: &Client| -> (r: bool)
            ensures
                r == (c@.info.id == id),
            {
                let own = c.info().id;
                own.hi == id.hi && own.lo == id.lo
            };
        let found = position(&self.clients, test, Ghost(pred));
        proof {
            lemma_first_where_map(self.clients@, |c: Client| c@, |c: ClientView| c.info.id == id);
            assert(pred =~= (|x: Client| (|c: ClientView| c.info.id == id)((|c: Client| c@)(x))));
        }
        found
    }

    /// The client `id`, if the broker has it.
    pub fn get_client(&self, id: ClientId) -> (res: Option<&Client>)
        ensures
            res is Some <==> self@.has_client(id),
            res is Some ==> res->Some_0@ == self@.clients[self@.client_at(id)],
    {
        match self.client_index(id) {
            Some(i) => Some(&self.clients[i]),
            None => None,
        }
    }

    /// Hands the next message of the channel `channel` of the topic `topic`
    /// to the subscriber whose turn it is, at `now`.
    ///
    /// A message is handed out exactly when topic and channel exist, neither
    /// is paused, a message is pending and a subscriber has credit and room.
    /// The message goes in flight with the subscriber's timeout; the client
    /// is recorded as holding it, with one credit less.
    pub fn deliver_at(&mut self, topic: &str, channel: &str, now: u64) -> (res: Option<Delivery>)
        requires
            old(self)@.wf(),
        ensures
            final(self)@.wf(),
            final(self)@ == old(self)@.after_deliver(topic@, channel@, now),
            res is Some <==> old(self)@.delivers(topic@, channel@),
            res is Some ==> {
                let c = old(self)@.channel(topic@, channel@)->Some_0;
                &&& res->Some_0.message@ == c.queue.pending[0]
                &&& res->Some_0.client_id == c.subscribers[c.chosen()->Some_0].client_id
            },
    {
        proof {
            lemma_idle_dispatch(self@, topic@, channel@, now);
        }
        let delivery = match self.apply(topic, channel, ChannelOp::Dispatch, now) {
            Ok(Some(delivery)) => delivery,
            _ => {
                return None;
            },
        };
        match self.client_index(delivery.client_id) {
            Some(ci) => {
                let ghost before = client_views(self.clients@);
                let mut client = self.clients.remove(ci);
                client.add_in_flight_at(&delivery.message, now);
                client.spend_credit();
                self.clients.insert(ci, client);
                proof {
                    assert(client_views(self.clients@) =~= before.update(ci as int, client@));
                }
            },
            None => {},
        }
        Some(delivery)
    }

    /// What the broker grants of what a client may ask for.
    pub fn grants(&self) -> (grants: Grants)
        ensures
            grants == self@.grants(),
    {
        Grants {
            msg_timeout: self.limits.msg_timeout,
            max_msg_timeout: self.limits.max_msg_timeout,
            max_rdy_count: self.limits.max_rdy_count,
            max_output_buffer_size: self.limits.max_output_buffer_size,
            max_output_buffer_timeout: self.limits.max_output_buffer_timeout,
        }
    }

    /// Counts a command of client `id`.
    pub fn note_command(&mut self, id: ClientId)
        requires
            old(self)@.wf(),
        ensures
            final(self)@.wf(),
            final(self)@ == old(self)@.after_note(id),
    {
        match self.client_index(id) {
            Some(ci) => {
                let ghost before = client_views(self.clients@);
                let mut client = self.clients.remove(ci);
                client.note_command_received();
                self.clients.insert(ci, client);
                proof {
                    assert(client_views(self.clients@) =~= before.update(ci as int, client@));
                }
            },
            None => {},
        }
    }

    /// Answers an `IDENTIFY` of client `id` that asks for `req`.
    ///
    /// A client that has just connected gets the settings in force, as a
    /// JSON object, and is identified. Any other client gets a fatal error.
    pub fn handle_identify(&mut self, id: ClientId, req: IdentifyRequest) -> (reply: Reply)
        requires
            old(self)@.wf(),
        ensures
            final(self)@.wf(),
            reply.kind() == old(self)@.identify_reply(id),
            final(self)@ == old(self)@.after_identify(id, req),
            reply matches Reply::Response(body) ==> body@ == identify_json(
                final(self)@.client(id).info,
            ),
    {
        let ci = match self.client_index(id) {
            Some(ci) => ci,
            None => {
                return Reply::Error(ErrorCode::Invalid);
            },
        };
        match self.clients[ci].state() {
            ClientState::Initial => {},
            _ => {
                return Reply::Error(ErrorCode::Invalid);
            },
        }
        let grants = self.grants();
        let ghost before = client_views(self.clients@);
        let mut client = self.clients.remove(ci);
        let info = negotiate(take_info(&mut client), req, grants);
        let body = identify_response(&info);
        client.set_info(info);
        client.set_state(ClientState::Identified);
        self.clients.insert(ci, client);
        proof {
            assert(client_views(self.clients@) =~= before.update(ci as int, client@));
            lemma_first_where(before, |c: ClientView| c.info.id == id);
            crate::seqs::lemma_first_where_is(
                self@.clients,
                |c: ClientView| c.info.id == id,
                ci as int,
            );
        }
        Reply::Response(body)
    }

    /// Answers a `SUB` of client `id` at `now`.
    ///
    /// An identified client that names a well-formed topic and channel is
    /// subscribed: topic and channel are made where they do not exist, and
    /// the client joins the channel without credit.
    pub fn handle_sub(&mut self, id: ClientId, topic: &str, channel: &str, now: u64) -> (reply:
        Reply)
        requires
            old(self)@.wf(),
        ensures
            final(self)@.wf(),
            reply.kind() == old(self)@.sub_reply(id, topic@, channel@),
            final(self)@ == old(self)@.after_sub(id, topic@, channel@, now),
    {
        let ci = match self.client_index(id) {
            Some(ci) => ci,
            None => {
                return Reply::Error(ErrorCode::Invalid);
            },
        };
        match self.clients[ci].state() {
            ClientState::Identified => {},
            _ => {
                return Reply::Error(ErrorCode::Invalid);
            },
        }
        if validate_topic_channel_name(topic).is_err() {
            return Reply::Error(ErrorCode::BadTopic);
        }
        if validate_topic_channel_name(channel).is_err() {
            return Reply::Error(ErrorCode::BadChannel);
        }
        let subscriber = Subscriber {
            client_id: id,
            rdy: 0,
            max_in_flight: self.clients[ci].info().max_rdy_count,
            msg_timeout: self.clients[ci].info().msg_timeout,
        };
        let _ = self.create_channel_at(topic, channel, now);
        let _ = self.apply(topic, channel, ChannelOp::Subscribe(subscriber), now);
        let ghost before = client_views(self.clients@);
        let mut client = self.clients.remove(ci);
        client.set_state(ClientState::Subscribed);
        client.set_topic(String::from_str(topic));
        client.set_channel(String::from_str(channel));
        self.clients.insert(ci, client);
        proof {
            assert(client_views(self.clients@) =~= before.update(ci as int, client@));
        }
        Reply::Done
    }

    /// The topic and channel that client `ci` subscribed to.
    fn subscription_of(&self, ci: usize) -> (res: Option<(String, String)>)
        requires
            ci < self@.clients.len(),
        ensures
            match res {
                Some((topic, channel)) => {
                    let c = self@.clients[ci as int];
                    &&& (c.state == ClientState::Subscribed || c.state == ClientState::Ready)
                    &&& c.topic == Some(topic@)
                    &&& c.channel == Some(channel@)
                },
                None => {
                    let c = self@.clients[ci as int];
                    !((c.state == ClientState::Subscribed || c.state == ClientState::Ready)
                        && c.topic is Some && c.channel is Some)
                },
            },
    {
        let client = &self.clients[ci];
        match client.state() {
            ClientState::Subscribed | ClientState::Ready => {},
            _ => {
                return None;
            },
        }
        match (client.topic(), client.channel()) {
            (Some(topic), Some(channel)) => Some((topic, channel)),
            _ => None,
        }
    }

    /// Answers an `RDY` of client `id` at `now`.
    ///
    /// A subscribed client that announces no more credit than the broker
    /// allows, and than it agreed on with the broker, has its credit set.
    /// More credit than that is a fatal error and changes nothing.
    pub fn handle_rdy(&mut self, id: ClientId, count: u32, now: u64) -> (reply: Reply)
        requires
            old(self)@.wf(),
        ensures
            final(self)@.wf(),
            reply.kind() == old(self)@.rdy_reply(id, count),
            final(self)@ == old(self)@.after_rdy(id, count, now),
    {
        let ci = match self.client_index(id) {
            Some(ci) => ci,
            None => {
                return Reply::Error(ErrorCode::Invalid);
            },
        };
        let (topic, channel) = match self.subscription_of(ci) {
            Some(names) => names,
            None => {
                return Reply::Error(ErrorCode::Invalid);
            },
        };
        if count > self.limits.max_rdy_count || count > self.clients[ci].info().max_rdy_count {
            return Reply::Error(ErrorCode::Invalid);
        }
        proof {
            lemma_failed_apply(
                self@,
                topic@,
                channel@,
                ChannelOp::Ready { client: id, count },
                now,
            );
        }
        let _ = self.apply(
            topic.as_str(),
            channel.as_str(),
            ChannelOp::Ready { client: id, count },
            now,
        );
        let ghost before = client_views(self.clients@);
        let mut client = self.clients.remove(ci);
        let _ = client.set_rdy_count(count);
        let _ = client.advance(ClientEvent::Credit(count));
        self.clients.insert(ci, client);
        proof {
            assert(client_views(self.clients@) =~= before.update(ci as int, client@));
        }
        Reply::Nothing
    }

    /// Answers a command of client `id` about the message `message_id` at
    /// `now`: `FIN`, `REQ` or `TOUCH`, given as the operation `op` on the
    /// client's channel, with the error `failed` for a message that is not
    /// in flight there.
    fn handle_message_op(
        &mut self,
        id: ClientId,
        message_id: &[u8],
        op: ChannelOp,
        failed: ErrorCode,
        now: u64,
    ) -> (reply: Reply)
        requires
            old(self)@.wf(),
            op is Finish || op is Requeue || op is Touch,
            message_id@.len() == MESSAGE_ID_LEN ==> match op {
                ChannelOp::Finish(m) => m == id_from_bytes(message_id@),
                ChannelOp::Requeue { id: m, delay } => m == id_from_bytes(message_id@),
                ChannelOp::Touch(m) => m == id_from_bytes(message_id@),
                _ => true,
            },
        ensures
            final(self)@.wf(),
            reply.kind() == old(self)@.message_reply(id, message_id@, op, failed),
            final(self)@ == old(self)@.after_message_op(id, message_id@, op, now),
    {
        let ci = match self.client_index(id) {
            Some(ci) => ci,
            None => {
                return Reply::Error(ErrorCode::Invalid);
            },
        };
        let (topic, channel) = match self.subscription_of(ci) {
            Some(names) => names,
            None => {
                return Reply::Error(ErrorCode::Invalid);
            },
        };
        let mid = match MessageId::from_slice(message_id) {
            Some(mid) => mid,
            None => {
                return Reply::Error(ErrorCode::Invalid);
            },
        };
        match self.apply(topic.as_str(), channel.as_str(), op, now) {
            Ok(_) => {},
            Err(_) => {
                return Reply::Error(failed);
            },
        }
        match op {
            ChannelOp::Touch(_) => {},
            _ => {
                let ghost before = client_views(self.clients@);
                let mut client = self.clients.remove(ci);
                let _ = client.remove_in_flight(mid);
                self.clients.insert(ci, client);
                proof {
                    assert(client_views(self.clients@) =~= before.update(ci as int, client@));
                }
            },
        }
        Reply::Nothing
    }

    /// Answers a `FIN` of client `id`: the message is acknowledged and
    /// leaves the client's channel. A message that is not in flight there is
    /// the error `E_FIN_FAILED`.
    pub fn handle_fin(&mut self, id: ClientId, message_id: &[u8], now: u64) -> (reply: Reply)
        requires
            old(self)@.wf(),
        ensures
            final(self)@.wf(),
            reply.kind() == old(self)@.message_reply(
                id,
                message_id@,
                ChannelOp::Finish(id_from_bytes(message_id@)),
                ErrorCode::FinFailed,
            ),
            final(self)@ == old(self)@.after_message_op(
                id,
                message_id@,
                ChannelOp::Finish(id_from_bytes(message_id@)),
                now,
            ),
    {
        let mid = match MessageId::from_slice(message_id) {
            Some(mid) => mid,
            None => MessageId { hi: 0, lo: 0 },
        };
        proof {
            lemma_message_op_id(self@, id, message_id@, mid, 0, now);
        }
        self.handle_message_op(id, message_id, ChannelOp::Finish(mid), ErrorCode::FinFailed, now)
    }

    /// Answers a `REQ` of client `id` at `now`: the message is handed back,
    /// for redelivery after `timeout`, cut down to the longest delay the
    /// broker allows. A message that is not in flight in the client's
    /// channel is the error `E_REQ_FAILED`.
    pub fn handle_req(&mut self, id: ClientId, message_id: &[u8], timeout: u64, now: u64) -> (reply:
        Reply)
        requires
            old(self)@.wf(),
        ensures
            final(self)@.wf(),
            reply.kind() == old(self)@.message_reply(
                id,
                message_id@,
                ChannelOp::Requeue {
                    id: id_from_bytes(message_id@),
                    delay: old(self)@.requeue_delay(timeout),
                },
                ErrorCode::ReqFailed,
            ),
            final(self)@ == old(self)@.after_message_op(
                id,
                message_id@,
                ChannelOp::Requeue {
                    id: id_from_bytes(message_id@),
                    delay: old(self)@.requeue_delay(timeout),
                },
                now,
            ),
    {
        let mid = match MessageId::from_slice(message_id) {
            Some(mid) => mid,
            None => MessageId { hi: 0, lo: 0 },
        };
        let delay = if timeout <= self.limits.max_req_timeout {
            timeout
        } else {
            self.limits.max_req_timeout
        };
        proof {
            lemma_message_op_id(self@, id, message_id@, mid, delay, now);
        }
        self.handle_message_op(
            id,
            message_id,
            ChannelOp::Requeue { id: mid, delay },
            ErrorCode::ReqFailed,
            now,
        )
    }

    /// Answers a `TOUCH` of client `id` at `now`: the timeout of the message
    /// starts anew. A message that is not in flight in the client's channel
    /// is the error `E_TOUCH_FAILED`.
    pub fn handle_touch(&mut self, id: ClientId, message_id: &[u8], now: u64) -> (reply: Reply)
        requires
            old(self)@.wf(),
        ensures
            final(self)@.wf(),
            reply.kind() == old(self)@.message_reply(
                id,
                message_id@,
                ChannelOp::Touch(id_from_bytes(message_id@)),
                ErrorCode::TouchFailed,
            ),
            final(self)@ == old(self)@.after_message_op(
                id,
                message_id@,
                ChannelOp::Touch(id_from_bytes(message_id@)),
                now,
            ),
    {
        let mid = match MessageId::from_slice(message_id) {
            Some(mid) => mid,
            None => MessageId { hi: 0, lo: 0 },
        };
        proof {
            lemma_message_op_id(self@, id, message_id@, mid, 0, now);
        }
        self.handle_message_op(id, message_id, ChannelOp::Touch(mid), ErrorCode::TouchFailed, now)
    }

    /// The first check of a publishing command of client `id` for `topic`.
    pub fn check_publisher(&self, id: ClientId, topic: &str) -> (res: Option<ErrorCode>)
        ensures
            res == self@.publish_refusal(id, topic@),
    {
        let ci = match self.client_index(id) {
            Some(ci) => ci,
            None => {
                return Some(ErrorCode::Invalid);
            },
        };
        match self.clients[ci].state() {
            ClientState::Identified | ClientState::Subscribed | ClientState::Ready => {},
            _ => {
                return Some(ErrorCode::Invalid);
            },
        }
        if validate_topic_channel_name(topic).is_err() {
            return Some(ErrorCode::BadTopic);
        }
        None
    }

    /// Answers a `PUB` of client `id` at `now`, publishing `message` with
    /// the identifiers `ids` for its copies.
    pub fn handle_pub_at(
        &mut self,
        id: ClientId,
        topic: &str,
        message: Message,
        ids: &Vec<MessageId>,
        now: u64,
    ) -> (reply: Reply)
        requires
            old(self)@.wf(),
        ensures
            final(self)@.wf(),
            reply.kind() == old(self)@.pub_reply(id, topic@, message@.body, now),
            final(self)@ == old(self)@.after_pub(id, topic@, message@, ids@, now),
    {
        match self.check_publisher(id, topic) {
            Some(code) => {
                return Reply::Error(code);
            },
            None => {},
        }
        proof {
            lemma_takes_any_identity(self@, topic@, message@, now);
        }
        let oversize = message.body.len() > self.limits.max_msg_size;
        match self.publish_message_at(topic, message, ids, now) {
            Ok(()) => Reply::Done,
            Err(_) => if oversize {
                Reply::Error(ErrorCode::BadMessage)
            } else {
                Reply::Error(ErrorCode::PubFailed)
            },
        }
    }

    /// Answers a `CLS` of client `id`: the client leaves the broker, and in
    /// every channel the messages it held in flight are pending again.
    pub fn handle_cls(&mut self, id: ClientId) -> (reply: Reply)
        requires
            old(self)@.wf(),
        ensures
            final(self)@.wf(),
            reply is CloseWait,
            final(self)@ == old(self)@.after_remove_client(id),
            final(self)@.holds_nothing(id),
    {
        self.remove_client(id);
        Reply::CloseWait
    }

    /// Checks the heartbeat of client `id` at `now`.
    ///
    /// A client to which nothing was sent for a heartbeat interval is due a
    /// heartbeat; one that left two of them unanswered is closed, and the
    /// messages it held are pending again.
    pub fn check_heartbeat_at(&mut self, id: ClientId, now: u64) -> (action: HeartbeatAction)
        requires
            old(self)@.wf(),
        ensures
            final(self)@.wf(),
            !old(self)@.has_client(id) ==> action == HeartbeatAction::Wait && final(self)@ == old(
                self,
            )@,
            old(self)@.has_client(id) ==> action == old(self)@.client(id).heartbeat_action(now),
            old(self)@.has_client(id) && action != HeartbeatAction::Close ==> final(self)@ == old(
                self,
            )@.with_client(id, old(self)@.client(id).after_heartbeat(now)),
            action == HeartbeatAction::Close ==> final(self)@ == old(self)@.after_remove_client(id)
                && final(self)@.holds_nothing(id),
    {
        let ci = match self.client_index(id) {
            Some(ci) => ci,
            None => {
                return HeartbeatAction::Wait;
            },
        };
        let ghost before = client_views(self.clients@);
        let mut client = self.clients.remove(ci);
        let action = client.heartbeat_at(now);
        match action {
            HeartbeatAction::Close => {
                self.clients.insert(ci, client);
                proof {
                    assert(client_views(self.clients@) =~= before.update(ci as int, client@));
                    lemma_first_where(before, |c: ClientView| c.info.id == id);
                    assert(before[ci as int].info.id == id);
                    lemma_remove_ignores_record(old(self)@, id, client@);
                }
                self.remove_client(id);
            },
            _ => {
                self.clients.insert(ci, client);
                proof {
                    assert(client_views(self.clients@) =~= before.update(ci as int, client@));
                }
            },
        }
        action
    }

    /// Publishes the batch `messages` to the topic called `topic_name` at
    /// `now` as a whole, message `k` with the identifiers `ids[k]` for its
    /// copies.
    ///
    /// A name that is not well-formed, a body over the message limit and
    /// bodies that together are over the request limit are validation
    /// errors; a topic without room for the whole batch is a queue error;
    /// then no message of the batch is published.
    pub fn publish_batch_at(
        &mut self,
        topic_name: &str,
        messages: Vec<Message>,
        ids: &Vec<Vec<MessageId>>,
        now: u64,
    ) -> (res: Result<(), NsqError>)
        requires
            old(self)@.wf(),
        ensures
            final(self)@.wf(),
            final(self)@ == old(self)@.after_publish_batch(
                topic_name@,
                message_views(messages@),
                id_rows(ids@),
                now,
            ),
            res is Ok <==> old(self)@.takes_batch(topic_name@, message_views(messages@), now),
            !valid_name(encode_utf8(topic_name@)) || !old(self)@.batch_fits(
                message_views(messages@),
            ) ==> res is Err && res->Err_0 is Validation,
            res is Err ==> res->Err_0 is Validation || res->Err_0 is Queue,
    {
        if validate_topic_channel_name(topic_name).is_err() {
            return Err(NsqError::Validation(String::from_str("Invalid topic name")));
        }
        if !self.batch_within_limits(&messages) {
            return Err(NsqError::Validation(String::from_str("Message too large")));
        }
        let _ = self.create_topic_at(topic_name, now);
        let i = match self.topic_index(topic_name) {
            Some(i) => i,
            None => {
                return Err(NsqError::Queue(String::from_str("Topic not found")));
            },
        };
        let ghost mid = self@;
        proof {
            assert(self@.topics[i as int].wf());
        }
        let res = publish_all_into(&mut self.topics, i, messages, ids);
        proof {
            lemma_update_keeps_wf(mid, i as int, self@.topics[i as int]);
        }
        res
    }

    /// Whether the batch `messages` is within the limits.
    pub fn batch_within_limits(&self, messages: &Vec<Message>) -> (yes: bool)
        ensures
            yes == self@.batch_fits(message_views(messages@)),
    {
        let ghost ms = message_views(messages@);
        let n = messages.len();
        let mut total: usize = 0;
        let mut k: usize = 0;
        proof {
            assert(ms.take(0) =~= Seq::<MessageView>::empty());
        }
        while k < n
            invariant
                k <= n,
                n == messages@.len(),
                ms == message_views(messages@),
                total == total_len(ms.take(k as int)),
                total <= self@.limits.max_body_size,
                forall|j: int|
                    0 <= j < k ==> (#[trigger] ms[j]).body.len() <= self@.limits.max_msg_size,
            decreases n - k,
        {
            let len = messages[k].body.len();
            proof {
                assert(ms[k as int] == messages@[k as int]@);
                assert(ms.take(k + 1).drop_last() =~= ms.take(k as int));
                assert(ms.take(k + 1).last() == ms[k as int]);
                lemma_total_len_grows(ms, k + 1);
            }
            if len > self.limits.max_msg_size {
                return false;
            }
            if len > self.limits.max_body_size - total {
                return false;
            }
            total = total + len;
            k = k + 1;
        }
        proof {
            assert(ms.take(n as int) =~= ms);
        }
        true
    }

    /// Publishes `message` to the topic called `topic_name` at `now` for
    /// delivery at `ready_at`, with the identifiers `ids` for the copies.
    ///
    /// A name that is not well-formed and a body over the message limit are
    /// validation errors; a topic that does not take the message is a queue
    /// error; then nothing is published.
    pub fn publish_deferred_at(
        &mut self,
        topic_name: &str,
        message: Message,
        ids: &Vec<MessageId>,
        ready_at: u64,
        now: u64,
    ) -> (res: Result<(), NsqError>)
        requires
            old(self)@.wf(),
        ensures
            final(self)@.wf(),
            final(self)@ == old(self)@.after_publish_deferred(
                topic_name@,
                message@,
                ids@,
                ready_at,
                now,
            ),
            res is Ok <==> old(self)@.takes_deferred(topic_name@, message@, now),
            !valid_name(encode_utf8(topic_name@)) || message@.body.len() > old(
                self,
            )@.limits.max_msg_size ==> res is Err && res->Err_0 is Validation,
            res is Err ==> res->Err_0 is Validation || res->Err_0 is Queue,
    {
        if validate_topic_channel_name(topic_name).is_err() {
            return Err(NsqError::Validation(String::from_str("Invalid topic name")));
        }
        if message.body.len() > self.limits.max_msg_size {
            return Err(NsqError::Validation(String::from_str("Message too large")));
        }
        let _ = self.create_topic_at(topic_name, now);
        let i = match self.topic_index(topic_name) {
            Some(i) => i,
            None => {
                return Err(NsqError::Queue(String::from_str("Topic not found")));
            },
        };
        let ghost mid = self@;
        proof {
            assert(self@.topics[i as int].wf());
        }
        let res = publish_deferred_into(&mut self.topics, i, message, ids, ready_at);
        proof {
            lemma_update_keeps_wf(mid, i as int, self@.topics[i as int]);
        }
        res
    }

    /// Answers an `MPUB` of client `id` at `now`, publishing the batch
    /// `messages`, message `k` with the identifiers `ids[k]` for its copies.
    pub fn handle_mpub_at(
        &mut self,
        id: ClientId,
        topic: &str,
        messages: Vec<Message>,
        ids: &Vec<Vec<MessageId>>,
        now: u64,
    ) -> (reply: Reply)
        requires
            old(self)@.wf(),
        ensures
            final(self)@.wf(),
            reply.kind() == old(self)@.mpub_reply(id, topic@, message_views(messages@), now),
            final(self)@ == old(self)@.after_mpub(
                id,
                topic@,
                message_views(messages@),
                id_rows(ids@),
                now,
            ),
    {
        match self.check_publisher(id, topic) {
            Some(code) => {
                return Reply::Error(code);
            },
            None => {},
        }
        let fits = self.batch_within_limits(&messages);
        match self.publish_batch_at(topic, messages, ids, now) {
            Ok(()) => Reply::Done,
            Err(_) => if fits {
                Reply::Error(ErrorCode::PubFailed)
            } else {
                Reply::Error(ErrorCode::BadMessage)
            },
        }
    }

    /// Answers a `DPUB` of client `id` at `now`, publishing `message` for
    /// delivery after `delay`, with the identifiers `ids` for its copies.
    pub fn handle_dpub_at(
        &mut self,
        id: ClientId,
        topic: &str,
        delay: u64,
        message: Message,
        ids: &Vec<MessageId>,
        now: u64,
    ) -> (reply: Reply)
        requires
            old(self)@.wf(),
        ensures
            final(self)@.wf(),
            reply.kind() == old(self)@.dpub_reply(id, topic@, delay, message@, now),
            final(self)@ == old(self)@.after_dpub(id, topic@, delay, message@, ids@, now),
    {
        match self.check_publisher(id, topic) {
            Some(code) => {
                return Reply::Error(code);
            },
            None => {},
        }
        if delay > self.limits.max_req_timeout {
            return Reply::Error(ErrorCode::Invalid);
        }
        let oversize = message.body.len() > self.limits.max_msg_size;
        match self.publish_deferred_at(topic, message, ids, now.saturating_add(delay), now) {
            Ok(()) => Reply::Done,
            Err(_) => if oversize {
                Reply::Error(ErrorCode::BadMessage)
            } else {
                Reply::Error(ErrorCode::PubFailed)
            },
        }
    }

    /// As many fresh random identifiers as the topic called `topic_name`
    /// needs for the copies of one message.
    fn fresh_ids(&self, topic_name: &str) -> (ids: Vec<MessageId>)
        ensures
            ids@.len() == self@.spare_copies(topic_name@),
    {
        let mut ids: Vec<MessageId> = Vec::new();
        let wanted = match self.get_topic(topic_name) {
            Some(t) => t.get_channels().len(),
            None => 0,
        };
        let mut k: usize = 1;
        while k < wanted
            invariant
                1 <= k,
                k <= wanted || k == 1,
                ids@.len() == k - 1,
            decreases wanted - k,
        {
            ids.push(MessageId::generate());
            k = k + 1;
        }
        ids
    }

    /// New messages that carry `bodies`, each with fresh random identifiers
    /// for its copies in the topic called `topic_name`.
    fn new_batch(&self, topic_name: &str, bodies: Vec<Vec<u8>>) -> (batch: (
        Vec<Message>,
        Vec<Vec<MessageId>>,
    ))
        ensures
            carries(message_views(batch.0@), crate::text::byte_rows(bodies)),
            supplies(id_rows(batch.1@), bodies@.len(), self@.spare_copies(topic_name@)),
    {
        let ghost rows = crate::text::byte_rows(bodies);
        let mut bodies = bodies;
        let mut messages: Vec<Message> = Vec::new();
        let mut ids: Vec<Vec<MessageId>> = Vec::new();
        let ghost mut k: int = 0;
        while bodies.len() > 0
            invariant
                0 <= k <= rows.len(),
                crate::text::byte_rows(bodies) == rows.skip(k),
                carries(message_views(messages@), rows.take(k)),
                supplies(id_rows(ids@), k as nat, self@.spare_copies(topic_name@)),
            decreases bodies@.len(),
        {
            let ghost left = crate::text::byte_rows(bodies);
            let body = bodies.remove(0);
            let message = Message::new(body);
            let ghost before = message_views(messages@);
            messages.push(message);
            let ghost rows_before = id_rows(ids@);
            let row = self.fresh_ids(topic_name);
            ids.push(row);
            proof {
                assert(id_rows(ids@) =~= rows_before.push(row@));
                assert(body@ == left[0]);
                assert(crate::text::byte_rows(bodies) =~= left.remove(0));
                assert(rows.skip(k).remove(0) =~= rows.skip(k + 1));
                assert(message_views(messages@) =~= before.push(message@));
                assert(rows.take(k + 1) =~= rows.take(k).push(rows[k]));
                k = k + 1;
            }
        }
        proof {
            assert(rows.skip(k).len() == 0);
            assert(rows.take(k) =~= rows);
        }
        (messages, ids)
    }

    /// Publishes new messages with the bodies `bodies` to the topic called
    /// `topic_name` as a whole, as of now. Every message and every copy gets
    /// a fresh random identifier.
    ///
    /// A name that is not well-formed, a body over the message limit and
    /// bodies that together are over the request limit are validation
    /// errors; a topic without room for the whole batch is a queue error;
    /// then no message of the batch is published.
    pub fn publish_batch(&mut self, topic_name: &str, bodies: Vec<Vec<u8>>) -> (res: Result<
        (),
        NsqError,
    >)
        requires
            old(self)@.wf(),
        ensures
            final(self)@.wf(),
            res is Err ==> res->Err_0 is Validation || res->Err_0 is Queue,
            exists|ms: Seq<MessageView>, ids: Seq<Seq<MessageId>>, now: u64|
                carries(ms, crate::text::byte_rows(bodies)) && supplies(
                    ids,
                    ms.len(),
                    old(self)@.spare_copies(topic_name@),
                ) && (res is Ok <==> #[trigger] old(self)@.takes_batch(topic_name@, ms, now))
                    && final(self)@ == #[trigger] old(self)@.after_publish_batch(
                    topic_name@,
                    ms,
                    ids,
                    now,
                ),
    {
        let (messages, ids) = self.new_batch(topic_name, bodies);
        let now = now_millis();
        let ghost ms = message_views(messages@);
        let res = self.publish_batch_at(topic_name, messages, &ids, now);
        proof {
            let after = old(self)@.after_publish_batch(topic_name@, ms, id_rows(ids@), now);
            assert(ms.len() == bodies@.len());
            assert(carries(ms, crate::text::byte_rows(bodies)) && supplies(
                id_rows(ids@),
                ms.len(),
                old(self)@.spare_copies(topic_name@),
            ) && (res is Ok <==> old(self)@.takes_batch(topic_name@, ms, now)) && final(self)@
                == after);
        }
        res
    }

    /// Answers `command` of client `id`, as of now.
    pub fn handle_command(&mut self, id: ClientId, command: Command) -> (reply: Reply)
        requires
            old(self)@.wf(),
        ensures
            final(self)@.wf(),
            exists|now: u64|
                #[trigger] command_outcome(
                    old(self)@.after_note(id),
                    final(self)@,
                    id,
                    command,
                    now,
                    reply,
                ),
    {
        let now = now_millis();
        let reply = self.handle_command_at(id, command, now);
        proof {
            assert(command_outcome(old(self)@.after_note(id), final(self)@, id, command, now, reply));
        }
        reply
    }

    /// Answers `command` of client `id` at `now`.
    ///
    /// The command is counted for the client; then it is answered as the
    /// protocol has it: by the state of the client, by the names and sizes
    /// it carries, and by what the topic and the channel make of it.
    pub fn handle_command_at(&mut self, id: ClientId, command: Command, now: u64) -> (reply: Reply)
        requires
            old(self)@.wf(),
        ensures
            final(self)@.wf(),
            command_outcome(old(self)@.after_note(id), final(self)@, id, command, now, reply),
    {
        self.note_command(id);
        let ghost pre = self@;
        match command {
            Command::Identify { data } => {
                let req = IdentifyRequest::from_json(data.as_slice());
                let reply = self.handle_identify(id, req);
                proof {
                    assert(req.asked_in(data@) && self@ == pre.after_identify(id, req));
                    assert(command_outcome(pre, self@, id, command, now, reply));
                }
                reply
            },
            Command::Sub { topic, channel } => self.handle_sub(
                id,
                topic.as_str(),
                channel.as_str(),
                now,
            ),
            Command::Rdy { count } => self.handle_rdy(id, count, now),
            Command::Fin { message_id } => self.handle_fin(id, message_id.as_slice(), now),
            Command::Req { message_id, timeout } => self.handle_req(
                id,
                message_id.as_slice(),
                timeout,
                now,
            ),
            Command::Touch { message_id } => self.handle_touch(id, message_id.as_slice(), now),
            Command::Pub { topic, body } => {
                let ids = self.fresh_ids(topic.as_str());
                let message = Message::new(body);
                let reply = self.handle_pub_at(id, topic.as_str(), message, &ids, now);
                proof {
                    assert(message@.body == body@ && message@.attempts == 0 && ids@.len()
                        == pre.spare_copies(topic@) && self@ == pre.after_pub(
                        id,
                        topic@,
                        message@,
                        ids@,
                        now,
                    ));
                    assert(command_outcome(pre, self@, id, command, now, reply));
                }
                reply
            },
            Command::Mpub { topic, bodies } => {
                let ghost rows = crate::text::byte_rows(bodies);
                let (messages, ids) = self.new_batch(topic.as_str(), bodies);
                let ghost ms = message_views(messages@);
                let reply = self.handle_mpub_at(id, topic.as_str(), messages, &ids, now);
                proof {
                    let witness = pre.after_mpub(id, topic@, ms, id_rows(ids@), now);
                    assert(ms.len() == rows.len());
                    assert(carries(ms, rows) && supplies(
                        id_rows(ids@),
                        ms.len(),
                        pre.spare_copies(topic@),
                    ) && reply.kind() == pre.mpub_reply(id, topic@, ms, now) && self@ == witness);
                    assert(command_outcome(pre, self@, id, command, now, reply));
                }
                reply
            },
            Command::Dpub { topic, delay, body } => {
                let ids = self.fresh_ids(topic.as_str());
                let message = Message::new(body);
                let reply = self.handle_dpub_at(id, topic.as_str(), delay, message, &ids, now);
                proof {
                    let witness = pre.after_dpub(id, topic@, delay, message@, ids@, now);
                    assert(message@.body == body@ && message@.attempts == 0 && ids@.len()
                        == pre.spare_copies(topic@) && reply.kind() == pre.dpub_reply(
                        id,
                        topic@,
                        delay,
                        message@,
                        now,
                    ) && self@ == witness);
                    assert(command_outcome(pre, self@, id, command, now, reply));
                }
                reply
            },
            Command::Auth { secret } => Reply::Error(ErrorCode::AuthFailed),
            Command::Nop => Reply::Nothing,
            Command::Close => self.handle_cls(id),
        }
    }

    /// Hands over the records that the channel `channel` of the topic
    /// `topic` wants appended to its disk backing, oldest first; none where
    /// there is no such channel.
    pub fn take_channel_disk_writes(&mut self, topic: &str, channel: &str) -> (writes: Vec<
        DiskWrite,
    >)
        requires
            old(self)@.wf(),
        ensures
            final(self)@.wf(),
            final(self)@.clients == old(self)@.clients,
            final(self)@.limits == old(self)@.limits,
            match old(self)@.channel(topic@, channel@) {
                Some(c) => {
                    let i = old(self)@.topic_at(topic@);
                    let t = old(self)@.topics[i];
                    &&& crate::message_queue::write_views(writes@) == c.queue.spill
                    &&& final(self)@.topics == old(self)@.topics.update(
                        i,
                        t.after_take_writes(find_channel(t.channels, channel@)),
                    )
                },
                None => writes@.len() == 0 && final(self)@ == old(self)@,
            },
    {
        let i = match self.topic_index(topic) {
            Some(i) => i,
            None => {
                return Vec::new();
            },
        };
        let ghost before = self@;
        proof {
            assert(self@.topics[i as int].wf());
        }
        let writes = take_writes_in(&mut self.topics, i, channel);
        proof {
            lemma_update_keeps_wf(before, i as int, self@.topics[i as int]);
        }
        writes
    }

    /// Hands over the records that the backlog of the topic `topic` wants
    /// appended to its disk backing, oldest first; none where there is no
    /// such topic.
    pub fn take_topic_disk_writes(&mut self, topic: &str) -> (writes: Vec<DiskWrite>)
        requires
            old(self)@.wf(),
        ensures
            final(self)@.wf(),
            final(self)@.clients == old(self)@.clients,
            final(self)@.limits == old(self)@.limits,
            old(self)@.has_topic(topic@) ==> {
                let i = old(self)@.topic_at(topic@);
                let t = old(self)@.topics[i];
                &&& crate::message_queue::write_views(writes@) == t.backlog.spill
                &&& final(self)@.topics == old(self)@.topics.update(
                    i,
                    TopicView { backlog: QueueView { spill: Seq::empty(), ..t.backlog }, ..t },
                )
            },
            !old(self)@.has_topic(topic@) ==> writes@.len() == 0 && final(self)@ == old(self)@,
    {
        let i = match self.topic_index(topic) {
            Some(i) => i,
            None => {
                return Vec::new();
            },
        };
        let ghost before = self@;
        proof {
            assert(self@.topics[i as int].wf());
        }
        let writes = take_backlog_writes_in(&mut self.topics, i);
        proof {
            lemma_update_keeps_wf(before, i as int, self@.topics[i as int]);
        }
        writes
    }

    /// Lets the backlog of the topic `topic` give up records that were
    /// planned for disk and could not be written: the `lost` records that
    /// were handed over, of which the first was to go to `offset` in segment
    /// `file_num`, and those that still wait to be handed over. The result
    /// tells whether that could be; if not, nothing changes.
    pub fn give_up_topic_disk_writes(&mut self, topic: &str, file_num: u64, offset: u64, lost: u64)
        -> (done: bool)
        requires
            old(self)@.wf(),
        ensures
            final(self)@.wf(),
            final(self)@.clients == old(self)@.clients,
            final(self)@.limits == old(self)@.limits,
            old(self)@.has_topic(topic@) ==> {
                let i = old(self)@.topic_at(topic@);
                let t = old(self)@.topics[i];
                &&& done == t.backlog.can_give_up(file_num, offset, lost)
                &&& final(self)@.topics == old(self)@.topics.update(
                    i,
                    TopicView { backlog: t.backlog.after_give_up(file_num, offset, lost), ..t },
                )
            },
            !old(self)@.has_topic(topic@) ==> !done && final(self)@ == old(self)@,
    {
        let i = match self.topic_index(topic) {
            Some(i) => i,
            None => {
                return false;
            },
        };
        let ghost before = self@;
        proof {
            assert(self@.topics[i as int].wf());
        }
        let done = give_up_backlog_in(&mut self.topics, i, file_num, offset, lost);
        proof {
            lemma_update_keeps_wf(before, i as int, self@.topics[i as int]);
        }
        done
    }

    /// Lets the channel `channel` of the topic `topic` give up records that
    /// were planned for disk and could not be written: the `lost` records
    /// that were handed over, of which the first was to go to `offset` in
    /// segment `file_num`, and those that still wait to be handed over. The
    /// result tells whether that could be; if not, nothing changes.
    pub fn give_up_channel_disk_writes(
        &mut self,
        topic: &str,
        channel: &str,
        file_num: u64,
        offset: u64,
        lost: u64,
    ) -> (done: bool)
        requires
            old(self)@.wf(),
        ensures
            final(self)@.wf(),
            final(self)@.clients == old(self)@.clients,
            final(self)@.limits == old(self)@.limits,
            match old(self)@.channel(topic@, channel@) {
                Some(c) => {
                    let i = old(self)@.topic_at(topic@);
                    let t = old(self)@.topics[i];
                    &&& done == c.queue.can_give_up(file_num, offset, lost)
                    &&& final(self)@.topics == old(self)@.topics.update(
                        i,
                        t.after_give_up(find_channel(t.channels, channel@), file_num, offset, lost),
                    )
                },
                None => !done && final(self)@ == old(self)@,
            },
    {
        let i = match self.topic_index(topic) {
            Some(i) => i,
            None => {
                return false;
            },
        };
        let ghost before = self@;
        proof {
            assert(self@.topics[i as int].wf());
        }
        let done = give_up_in(&mut self.topics, i, channel, file_num, offset, lost);
        proof {
            lemma_update_keeps_wf(before, i as int, self@.topics[i as int]);
        }
        done
    }

    /// Lets the channel `channel` of the topic `topic` read the next record
    /// of its disk backing out of `segment`. The result tells whether a
    /// message came back.
    pub fn read_channel_disk(&mut self, topic: &str, channel: &str, segment: &[u8]) -> (res: Result<
        bool,
        NsqError,
    >)
        requires
            old(self)@.wf(),
        ensures
            final(self)@.wf(),
            final(self)@.clients == old(self)@.clients,
            final(self)@.limits == old(self)@.limits,
            match old(self)@.channel(topic@, channel@) {
                Some(c) => {
                    let i = old(self)@.topic_at(topic@);
                    let t = old(self)@.topics[i];
                    &&& final(self)@.topics == old(self)@.topics.update(
                        i,
                        t.after_read_disk(find_channel(t.channels, channel@), segment@),
                    )
                    &&& read_gave(res, c.queue.read_back(segment@))
                },
                None => final(self)@ == old(self)@ && res is Err && res->Err_0 is Validation,
            },
    {
        let i = match self.topic_index(topic) {
            Some(i) => i,
            None => {
                return Err(NsqError::Validation(String::from_str("Topic not found")));
            },
        };
        let ghost before = self@;
        proof {
            assert(self@.topics[i as int].wf());
        }
        let res = read_disk_in(&mut self.topics, i, channel, segment);
        proof {
            lemma_update_keeps_wf(before, i as int, self@.topics[i as int]);
        }
        res
    }

    /// Records that a frame of `size` bytes was sent to client `id` at
    /// `now`.
    pub fn note_frame_sent(&mut self, id: ClientId, size: usize, now: u64)
        requires
            old(self)@.wf(),
        ensures
            final(self)@.wf(),
            final(self)@.topics == old(self)@.topics,
            final(self)@.limits == old(self)@.limits,
            !old(self)@.has_client(id) ==> final(self)@ == old(self)@,
            old(self)@.has_client(id) ==> {
                let c = old(self)@.client(id);
                final(self)@ == old(self)@.with_client(
                    id,
                    ClientView {
                        last_sent: now,
                        stats: ClientStats {
                            commands_sent: sat_add(c.stats.commands_sent, 1),
                            bytes_sent: sat_add(c.stats.bytes_sent, size as nat),
                            ..c.stats
                        },
                        ..c
                    },
                )
            },
    {
        match self.client_index(id) {
            Some(ci) => {
                let ghost before = client_views(self.clients@);
                let mut client = self.clients.remove(ci);
                client.note_frame_sent(size, now);
                self.clients.insert(ci, client);
                proof {
                    assert(client_views(self.clients@) =~= before.update(ci as int, client@));
                }
            },
            None => {},
        }
    }
}

} // verus!
