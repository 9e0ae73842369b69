//! Client connections of the broker: what was negotiated, the state of the
//! protocol, flow-control credit and heartbeats.
//!
//! Times are milliseconds since the Unix epoch.

use crate::clock::now_millis;
use crate::disk_queue::lemma_filter_step;
use crate::message::{message_size, Message, MessageId, MessageView};
use crate::message_queue::{sat_add, ClientId};
use crate::seqs::retain;
use vstd::prelude::*;
use vstd::string::*;

verus! {

/// The state of a client connection.
#[derive(Debug, Clone, Copy, PartialEq, Eq, Structural)]
pub enum ClientState {
    /// Connected; nothing was negotiated yet.
    Initial,
    /// Parameters were negotiated.
    Identified,
    /// Subscribed to a channel, without credit.
    Subscribed,
    /// Subscribed, with credit: messages may be delivered.
    Ready,
    /// The connection is over.
    Closed,
}

/// What moves a client from one state to another.
#[derive(Debug, Clone, Copy, PartialEq, Eq, Structural)]
pub enum ClientEvent {
    /// The client identified itself.
    Identify,
    /// The client subscribed to a channel.
    Subscribe,
    /// The client announced its credit.
    Credit(u32),
    /// The client closed, failed or timed out.
    Close,
}

/// The state that `event` leads to from `state`, or `None` where the event
/// is out of order there.
///
/// A client identifies itself once, first; then it may subscribe, once;
/// then it may announce credit, which makes it ready while the credit is
/// positive. Closing is possible in any state, and final.
pub open spec fn next_state(state: ClientState, event: ClientEvent) -> Option<ClientState> {
    match event {
        ClientEvent::Close => Some(ClientState::Closed),
        ClientEvent::Identify => if state == ClientState::Initial {
            Some(ClientState::Identified)
        } else {
            None
        },
        ClientEvent::Subscribe => if state == ClientState::Identified {
            Some(ClientState::Subscribed)
        } else {
            None
        },
        ClientEvent::Credit(count) => if state == ClientState::Subscribed || state
            == ClientState::Ready {
            if count > 0 {
                Some(ClientState::Ready)
            } else {
                Some(ClientState::Subscribed)
            }
        } else {
            None
        },
    }
}

/// Whether a client in `state` may publish: it has identified itself and
/// the connection is not over.
pub open spec fn may_publish(state: ClientState) -> bool {
    state == ClientState::Identified || state == ClientState::Subscribed || state
        == ClientState::Ready
}

/// The state that `event` leads to from `state`.
pub fn step(state: ClientState, event: ClientEvent) -> (res: Option<ClientState>)
    ensures
        res == next_state(state, event),
{
    match event {
        ClientEvent::Close => Some(ClientState::Closed),
        ClientEvent::Identify => match state {
            ClientState::Initial => Some(ClientState::Identified),
            _ => None,
        },
        ClientEvent::Subscribe => match state {
            ClientState::Identified => Some(ClientState::Subscribed),
            _ => None,
        },
        ClientEvent::Credit(count) => match state {
            ClientState::Subscribed | ClientState::Ready => if count > 0 {
                Some(ClientState::Ready)
            } else {
                Some(ClientState::Subscribed)
            },
            _ => None,
        },
    }
}

/// What a client and the broker agreed on.
#[derive(Debug)]
pub struct ClientInfo {
    pub id: ClientId,
    pub remote_addr: String,
    pub user_agent: Option<String>,
    pub client_version: Option<String>,
    pub hostname: Option<String>,
    pub tls_version: Option<String>,
    pub tls_cipher_suite: Option<String>,
    pub deflate: bool,
    pub snappy: bool,
    pub sample_rate: u32,
    /// Milliseconds without traffic after which a heartbeat is due.
    pub heartbeat_interval: u64,
    pub output_buffer_size: usize,
    pub output_buffer_timeout: u64,
    pub max_rdy_count: u32,
    pub max_msg_timeout: u64,
    pub msg_timeout: u64,
}

impl Default for ClientInfo {
    fn default() -> (info: ClientInfo)
        ensures
            info.remote_addr@ == "unknown"@,
            info.user_agent is None,
            info.client_version is None,
            info.hostname is None,
            info.tls_version is None,
            info.tls_cipher_suite is None,
            !info.deflate,
            !info.snappy,
            info.sample_rate == 0,
            info.heartbeat_interval == 30000,
            info.output_buffer_size == 16384,
            info.output_buffer_timeout == 250,
            info.max_rdy_count == 2500,
            info.max_msg_timeout == 900000,
            info.msg_timeout == 60000,
    {
        ClientInfo {
            id: ClientId::generate(),
            remote_addr: String::from_str("unknown"),
            user_agent: None,
            client_version: None,
            hostname: None,
            tls_version: None,
            tls_cipher_suite: None,
            deflate: false,
            snappy: false,
            sample_rate: 0,
            heartbeat_interval: 30000,
            output_buffer_size: 16384,
            output_buffer_timeout: 250,
            max_rdy_count: 2500,
            max_msg_timeout: 900000,
            msg_timeout: 60000,
        }
    }
}

/// The counters of a client.
#[derive(Debug, Clone, Copy, PartialEq, Eq, Structural)]
pub struct ClientStats {
    pub messages_received: u64,
    pub messages_finished: u64,
    pub messages_requeued: u64,
    pub messages_timed_out: u64,
    pub bytes_received: u64,
    pub bytes_sent: u64,
    pub commands_received: u64,
    pub commands_sent: u64,
}

impl Default for ClientStats {
    fn default() -> (stats: ClientStats)
        ensures
            stats == zero_stats(),
    {
        ClientStats {
            messages_received: 0,
            messages_finished: 0,
            messages_requeued: 0,
            messages_timed_out: 0,
            bytes_received: 0,
            bytes_sent: 0,
            commands_received: 0,
            commands_sent: 0,
        }
    }
}

/// Counters that are all zero.
pub open spec fn zero_stats() -> ClientStats {
    ClientStats {
        messages_received: 0,
        messages_finished: 0,
        messages_requeued: 0,
        messages_timed_out: 0,
        bytes_received: 0,
        bytes_sent: 0,
        commands_received: 0,
        commands_sent: 0,
    }
}

/// The test that an identifier is not `id`.
pub open spec fn other_than(id: MessageId) -> spec_fn(MessageId) -> bool {
    |other: MessageId| other != id
}

/// What the broker does about the heartbeat of a client.
#[derive(Debug, Clone, Copy, PartialEq, Eq, Structural)]
pub enum HeartbeatAction {
    /// Nothing is due.
    Wait,
    /// Send a heartbeat.
    Send,
    /// Two heartbeats went unanswered: close the connection.
    Close,
}

/// The heartbeats that may go unanswered before the connection is closed.
pub const MAX_MISSED_HEARTBEATS: u32 = 2;

/// A client as a mathematical value.
pub struct ClientView {
    pub info: ClientInfo,
    pub state: ClientState,
    pub topic: Option<Seq<char>>,
    pub channel: Option<Seq<char>>,
    pub rdy_count: u32,
    pub last_message_time: Option<u64>,
    /// The identifiers of the messages that the client holds.
    pub in_flight: Seq<MessageId>,
    pub stats: ClientStats,
    /// When a frame was last sent to the client.
    pub last_sent: u64,
    /// How many heartbeats in a row the client has not answered.
    pub missed_heartbeats: u32,
}

impl ClientView {
    /// The identifier of the client.
    pub open spec fn id(self) -> ClientId {
        self.info.id
    }

    /// Whether messages may be delivered to the client.
    pub open spec fn ready(self) -> bool {
        self.state == ClientState::Ready && self.rdy_count > 0
    }

    /// Whether the client has had a message for longer than its message
    /// timeout at `now`.
    pub open spec fn timed_out(self, now: u64) -> bool {
        match self.last_message_time {
            Some(t) => t + self.info.msg_timeout < now,
            None => false,
        }
    }

    /// Whether a heartbeat is due at `now`: nothing was sent for a heartbeat
    /// interval. An interval of zero turns heartbeats off.
    pub open spec fn heartbeat_due(self, now: u64) -> bool {
        self.info.heartbeat_interval > 0 && self.last_sent + self.info.heartbeat_interval <= now
    }

    /// What to do about the heartbeat at `now`.
    pub open spec fn heartbeat_action(self, now: u64) -> HeartbeatAction {
        if self.state == ClientState::Closed || !self.heartbeat_due(now) {
            HeartbeatAction::Wait
        } else if self.missed_heartbeats >= MAX_MISSED_HEARTBEATS {
            HeartbeatAction::Close
        } else {
            HeartbeatAction::Send
        }
    }

    /// The client after the heartbeat check at `now`: a heartbeat that is
    /// sent counts as unanswered until the client answers, and closing
    /// closes.
    pub open spec fn after_heartbeat(self, now: u64) -> ClientView {
        match self.heartbeat_action(now) {
            HeartbeatAction::Wait => self,
            HeartbeatAction::Send => ClientView {
                missed_heartbeats: (self.missed_heartbeats + 1) as u32,
                last_sent: now,
                ..self
            },
            HeartbeatAction::Close => ClientView { state: ClientState::Closed, ..self },
        }
    }

    /// The client after it took message `m` at `now`.
    pub open spec fn after_add_in_flight(self, m: MessageView, now: u64) -> ClientView {
        ClientView {
            in_flight: self.in_flight.filter(other_than(m.id)).push(m.id),
            last_message_time: Some(now),
            stats: ClientStats {
                messages_received: sat_add(self.stats.messages_received, 1),
                bytes_received: sat_add(self.stats.bytes_received, message_size(m) as nat),
                ..self.stats
            },
            ..self
        }
    }

    /// Whether the client holds message `id`.
    pub open spec fn holds(self, id: MessageId) -> bool {
        self.in_flight.contains(id)
    }

    /// The client after it gave up message `id`.
    pub open spec fn after_remove_in_flight(self, id: MessageId) -> ClientView {
        if self.holds(id) {
            ClientView {
                in_flight: self.in_flight.filter(other_than(id)),
                stats: ClientStats {
                    messages_finished: sat_add(self.stats.messages_finished, 1),
                    ..self.stats
                },
                ..self
            }
        } else {
            self
        }
    }
}

/// A client connection.
#[derive(Debug)]
pub struct Client {
    info: ClientInfo,
    state: ClientState,
    topic: Option<String>,
    channel: Option<String>,
    rdy_count: u32,
    last_message_time: Option<u64>,
    in_flight_messages: Vec<MessageId>,
    stats: ClientStats,
    last_sent: u64,
    missed_heartbeats: u32,
}

impl View for Client {
    type V = ClientView;

    closed spec fn view(&self) -> ClientView {
        ClientView {
            info: self.info,
            state: self.state,
            topic: match self.topic {
                Some(t) => Some(t@),
                None => None,
            },
            channel: match self.channel {
                Some(c) => Some(c@),
                None => None,
            },
            rdy_count: self.rdy_count,
            last_message_time: self.last_message_time,
            in_flight: self.in_flight_messages@,
            stats: self.stats,
            last_sent: self.last_sent,
            missed_heartbeats: self.missed_heartbeats,
        }
    }
}

/// The record of a client that connected at `now` with the settings
/// `info`: in the initial state, without subscription, credit or messages,
/// and with every counter at zero.
pub open spec fn new_client(info: ClientInfo, now: u64) -> ClientView {
    ClientView {
        info,
        state: ClientState::Initial,
        topic: None,
        channel: None,
        rdy_count: 0,
        last_message_time: None,
        in_flight: Seq::empty(),
        stats: zero_stats(),
        last_sent: now,
        missed_heartbeats: 0,
    }
}

impl Client {
    /// A client that has just connected.
    pub fn new(info: ClientInfo) -> (c: Client)
        ensures
            exists|now: u64| c@ == #[trigger] new_client(info, now),
    {
        let now = now_millis();
        let c = Client::new_at(info, now);
        proof {
            assert(c@ == new_client(info, now));
        }
        c
    }

    /// A client that connected at `now`.
    pub fn new_at(info: ClientInfo, now: u64) -> (c: Client)
        ensures
            c@ == new_client(info, now),
    {
        let c = Client {
            info,
            state: ClientState::Initial,
            topic: None,
            channel: None,
            rdy_count: 0,
            last_message_time: None,
            in_flight_messages: Vec::new(),
            stats: ClientStats::default(),
            last_sent: now,
            missed_heartbeats: 0,
        };
        proof {
            assert(c@.in_flight =~= Seq::<MessageId>::empty());
        }
        c
    }

    /// What the client and the broker agreed on.
    pub fn info(&self) -> (info: &ClientInfo)
        ensures
            *info == self@.info,
    {
        &self.info
    }

    /// Replaces what the client and the broker agreed on, and gives what it
    /// was.
    pub fn replace_info(&mut self, info: ClientInfo) -> (was: ClientInfo)
        ensures
            was == old(self)@.info,
            final(self)@ == (ClientView { info, ..old(self)@ }),
    {
        let mut info = info;
        std::mem::swap(&mut self.info, &mut info);
        info
    }

    /// Replaces what the client and the broker agreed on.
    pub fn set_info(&mut self, info: ClientInfo)
        ensures
            final(self)@ == (ClientView { info, ..old(self)@ }),
    {
        self.info = info;
    }

    /// The state of the client.
    pub fn state(&self) -> (state: ClientState)
        ensures
            state == self@.state,
    {
        self.state
    }

    /// Sets the state of the client.
    pub fn set_state(&mut self, state: ClientState)
        ensures
            final(self)@ == (ClientView { state, ..old(self)@ }),
    {
        self.state = state;
    }

    /// Moves the client on by `event`. An event that is out of order in the
    /// state of the client changes nothing.
    pub fn advance(&mut self, event: ClientEvent) -> (ok: bool)
        ensures
            ok == next_state(old(self)@.state, event) is Some,
            ok ==> final(self)@ == (ClientView {
                state: next_state(old(self)@.state, event)->Some_0,
                ..old(self)@
            }),
            !ok ==> final(self)@ == old(self)@,
    {
        match step(self.state, event) {
            Some(next) => {
                self.state = next;
                true
            },
            None => false,
        }
    }

    /// The topic that the client subscribed to.
    pub fn topic(&self) -> (topic: Option<String>)
        ensures
            match topic {
                Some(t) => self@.topic == Some(t@),
                None => self@.topic is None,
            },
    {
        match &self.topic {
            Some(t) => Some(t.clone()),
            None => None,
        }
    }

    /// Records the topic that the client subscribed to.
    pub fn set_topic(&mut self, topic: String)
        ensures
            final(self)@ == (ClientView { topic: Some(topic@), ..old(self)@ }),
    {
        self.topic = Some(topic);
    }

    /// The channel that the client subscribed to.
    pub fn channel(&self) -> (channel: Option<String>)
        ensures
            match channel {
                Some(c) => self@.channel == Some(c@),
                None => self@.channel is None,
            },
    {
        match &self.channel {
            Some(c) => Some(c.clone()),
            None => None,
        }
    }

    /// Records the channel that the client subscribed to.
    pub fn set_channel(&mut self, channel: String)
        ensures
            final(self)@ == (ClientView { channel: Some(channel@), ..old(self)@ }),
    {
        self.channel = Some(channel);
    }

    /// The credit of the client.
    pub fn rdy_count(&self) -> (count: u32)
        ensures
            count == self@.rdy_count,
    {
        self.rdy_count
    }

    /// Sets the credit of the client to `count`, and tells whether it did.
    /// A count above the largest credit that the client agreed on with the
    /// broker is refused and changes nothing.
    pub fn set_rdy_count(&mut self, count: u32) -> (ok: bool)
        ensures
            ok == (count <= old(self)@.info.max_rdy_count),
            ok ==> final(self)@ == (ClientView { rdy_count: count, ..old(self)@ }),
            !ok ==> final(self)@ == old(self)@,
    {
        if count > self.info.max_rdy_count {
            return false;
        }
        self.rdy_count = count;
        true
    }

    /// Takes one credit from the client for a message that was handed to
    /// it; a client without credit has none taken.
    pub fn spend_credit(&mut self)
        ensures
            final(self)@ == (ClientView {
                rdy_count: if old(self)@.rdy_count > 0 {
                    (old(self)@.rdy_count - 1) as u32
                } else {
                    0
                },
                ..old(self)@
            }),
    {
        if self.rdy_count > 0 {
            self.rdy_count = self.rdy_count - 1;
        }
    }

    /// Whether messages may be delivered to the client: it is in the ready
    /// state and has credit.
    pub fn is_ready(&self) -> (ready: bool)
        ensures
            ready == self@.ready(),
    {
        self.state == ClientState::Ready && self.rdy_count > 0
    }

    /// Records that `message` was delivered to the client just now.
    pub fn add_in_flight(&mut self, message: &Message)
        ensures
            exists|now: u64| final(self)@ == old(self)@.after_add_in_flight(message@, now),
    {
        let now = now_millis();
        self.add_in_flight_at(message, now);
        proof {
            assert(final(self)@ == old(self)@.after_add_in_flight(message@, now));
        }
    }

    /// Records that `message` was delivered to the client at `now`.
    pub fn add_in_flight_at(&mut self, message: &Message, now: u64)
        ensures
            final(self)@ == old(self)@.after_add_in_flight(message@, now),
    {
        let id = message.id;
        let ghost pred = other_than(id);
        let keep = |other: &MessageId| -> (r: bool)
            ensures
                r == (*other != id),
            {
                let same = other.hi == id.hi && other.lo == id.lo;
                !same
            };
        retain(&mut self.in_flight_messages, keep, Ghost(pred));
        self.in_flight_messages.push(id);
        self.stats.messages_received = self.stats.messages_received.saturating_add(1);
        self.stats.bytes_received = self.stats.bytes_received.saturating_add(message.size() as u64);
        self.last_message_time = Some(now);
    }

    /// Records that the client gave up message `message_id`, and tells
    /// whether it held it.
    pub fn remove_in_flight(&mut self, message_id: MessageId) -> (held: bool)
        ensures
            held == old(self)@.holds(message_id),
            final(self)@ == old(self)@.after_remove_in_flight(message_id),
    {
        let ghost all = self.in_flight_messages@;
        let ghost pred = other_than(message_id);
        let before = self.in_flight_messages.len();
        let keep = |other: &MessageId| -> (r: bool)
            ensures
                r == (*other != message_id),
            {
                let same = other.hi == message_id.hi && other.lo == message_id.lo;
                !same
            };
        retain(&mut self.in_flight_messages, keep, Ghost(pred));
        proof {
            lemma_filter_all(all, message_id);
        }
        if self.in_flight_messages.len() < before {
            self.stats.messages_finished = self.stats.messages_finished.saturating_add(1);
            true
        } else {
            false
        }
    }

    /// The number of messages that the client holds.
    pub fn in_flight_count(&self) -> (n: usize)
        ensures
            n == self@.in_flight.len(),
    {
        self.in_flight_messages.len()
    }

    /// The counters of the client.
    pub fn stats(&self) -> (stats: ClientStats)
        ensures
            stats == self@.stats,
    {
        self.stats
    }

    /// Whether the client has had a message for longer than its message
    /// timeout by now.
    pub fn is_timed_out(&self) -> (yes: bool)
        ensures
            exists|now: u64| yes == #[trigger] self@.timed_out(now),
    {
        let now = now_millis();
        let yes = self.is_timed_out_at(now);
        proof {
            assert(yes == self@.timed_out(now));
        }
        yes
    }

    /// Whether the client has had a message for longer than its message
    /// timeout at `now`. A client that never had a message has not timed
    /// out.
    pub fn is_timed_out_at(&self, now: u64) -> (yes: bool)
        ensures
            yes == self@.timed_out(now),
    {
        match self.last_message_time {
            Some(t) => now > t && now - t > self.info.msg_timeout,
            None => false,
        }
    }

    /// Records that a command came from the client. An answer to a
    /// heartbeat is among them: the count of unanswered heartbeats starts
    /// anew.
    pub fn note_command_received(&mut self)
        ensures
            final(self)@ == (ClientView {
                missed_heartbeats: 0,
                stats: ClientStats {
                    commands_received: sat_add(old(self)@.stats.commands_received, 1),
                    ..old(self)@.stats
                },
                ..old(self)@
            }),
    {
        self.missed_heartbeats = 0;
        self.stats.commands_received = self.stats.commands_received.saturating_add(1);
    }

    /// Records that a frame of `size` bytes was sent to the client at `now`.
    pub fn note_frame_sent(&mut self, size: usize, now: u64)
        ensures
            final(self)@ == (ClientView {
                last_sent: now,
                stats: ClientStats {
                    commands_sent: sat_add(old(self)@.stats.commands_sent, 1),
                    bytes_sent: sat_add(old(self)@.stats.bytes_sent, size as nat),
                    ..old(self)@.stats
                },
                ..old(self)@
            }),
    {
        self.last_sent = now;
        self.stats.commands_sent = self.stats.commands_sent.saturating_add(1);
        self.stats.bytes_sent = self.stats.bytes_sent.saturating_add(size as u64);
    }

    /// Checks the heartbeat of the client at `now`.
    ///
    /// While frames were sent within the heartbeat interval nothing is due.
    /// Else a heartbeat is to be sent, unless two in a row went unanswered:
    /// then the connection is to be closed.
    pub fn heartbeat_at(&mut self, now: u64) -> (action: HeartbeatAction)
        ensures
            action == old(self)@.heartbeat_action(now),
            final(self)@ == old(self)@.after_heartbeat(now),
    {
        if self.state == ClientState::Closed || self.info.heartbeat_interval == 0 {
            return HeartbeatAction::Wait;
        }
        if now < self.last_sent || now - self.last_sent < self.info.heartbeat_interval {
            return HeartbeatAction::Wait;
        }
        if self.missed_heartbeats >= MAX_MISSED_HEARTBEATS {
            self.state = ClientState::Closed;
            return HeartbeatAction::Close;
        }
        self.missed_heartbeats = self.missed_heartbeats + 1;
        self.last_sent = now;
        HeartbeatAction::Send
    }

    /// Closes the connection.
    pub fn close(&mut self)
        ensures
            final(self)@ == (ClientView { state: ClientState::Closed, ..old(self)@ }),
    {
        self.state = ClientState::Closed;
    }

    /// Whether the connection is over.
    pub fn is_closed(&self) -> (closed: bool)
        ensures
            closed == (self@.state == ClientState::Closed),
    {
        self.state == ClientState::Closed
    }

    /// The identifiers of the messages that the client holds.
    pub fn in_flight_ids(&self) -> (ids: &Vec<MessageId>)
        ensures
            ids@ == self@.in_flight,
    {
        &self.in_flight_messages
    }
}

/// Filtering an identifier out of a sequence shortens it exactly when the
/// sequence holds the identifier.
pub proof fn lemma_filter_all(s: Seq<MessageId>, id: MessageId)
    ensures
        s.filter(other_than(id)).len() <= s.len(),
        s.filter(other_than(id)).len() < s.len() <==> s.contains(id),
        !s.contains(id) ==> s.filter(other_than(id)) == s,
    decreases s.len(),
{
    reveal(Seq::filter);
    let pred = other_than(id);
    if s.len() > 0 {
        let front = s.drop_last();
        lemma_filter_all(front, id);
        if s.contains(id) {
            let k = choose|k: int| 0 <= k < s.len() && s[k] == id;
            if k < front.len() {
                assert(front[k] == id);
                assert(front.contains(id));
            }
        }
        if front.contains(id) {
            let k = choose|k: int| 0 <= k < front.len() && front[k] == id;
            assert(s[k] == id);
        }
        if s.last() == id {
            assert(s[s.len() - 1] == id);
        }
        if !s.contains(id) {
            assert(front.push(s.last()) =~= s);
        }
    }
}

} // verus!
