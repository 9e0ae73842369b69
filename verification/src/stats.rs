//! The statistics that the broker reports: per topic, per channel, per
//! client, and overall.

use crate::channel::{Channel, ChannelView};
use crate::client::{Client, ClientState, ClientView};
use crate::message_queue::ClientId;
use crate::server::{client_views, topic_views, NsqdServer};
use crate::text::{decimal_chars, decimal_string};
use crate::topic::{channel_views, Topic, TopicView};
use vstd::prelude::*;
use vstd::string::*;

verus! {

/// What the broker tells of itself.
#[derive(Debug)]
pub struct ServerInfo {
    pub version: String,
    pub build_version: String,
    /// When the broker started, in milliseconds since the Unix epoch.
    pub start_time: u64,
    /// How long the broker has run, in seconds.
    pub uptime: u64,
    pub tcp_port: u16,
    pub http_port: u16,
    pub https_port: Option<u16>,
    pub data_path: String,
    pub mem_queue_size: usize,
    pub max_msg_size: usize,
    pub max_body_size: usize,
    pub max_req_timeout: u64,
    pub max_msg_timeout: u64,
    pub msg_timeout: u64,
    pub max_output_buffer_size: usize,
    pub max_output_buffer_timeout: u64,
    pub disable_http: bool,
    pub disable_https: bool,
}

/// The report on one channel.
#[derive(Debug)]
pub struct ChannelStats {
    pub name: String,
    pub topic_name: String,
    pub created_at: u64,
    pub paused: bool,
    pub message_count: u64,
    pub depth: u64,
    pub backend_depth: u64,
    pub in_flight_count: u64,
    pub deferred_count: u64,
    pub requeue_count: u64,
    pub timeout_count: u64,
    pub client_count: u64,
}

/// The report on one topic.
#[derive(Debug)]
pub struct TopicStats {
    pub name: String,
    pub created_at: u64,
    pub paused: bool,
    pub message_count: u64,
    pub channel_count: u64,
    pub depth: u64,
    pub backend_depth: u64,
    pub in_flight_count: u64,
    pub deferred_count: u64,
    pub requeue_count: u64,
    pub timeout_count: u64,
    pub channels: Vec<ChannelStats>,
}

/// The report on one client.
#[derive(Debug)]
pub struct ClientStats {
    pub id: ClientId,
    pub remote_addr: String,
    pub user_agent: Option<String>,
    pub client_version: Option<String>,
    pub hostname: Option<String>,
    pub deflate: bool,
    pub snappy: bool,
    pub sample_rate: u32,
    pub heartbeat_interval: u64,
    pub output_buffer_size: usize,
    pub output_buffer_timeout: u64,
    pub max_rdy_count: u32,
    pub max_msg_timeout: u64,
    pub msg_timeout: u64,
    pub state: String,
    pub topic: Option<String>,
    pub channel: Option<String>,
    pub rdy_count: u32,
    pub in_flight_count: u64,
    pub messages_received: u64,
    pub messages_finished: u64,
    pub messages_requeued: u64,
    pub messages_timed_out: u64,
    pub bytes_received: u64,
    pub bytes_sent: u64,
    pub commands_received: u64,
    pub commands_sent: u64,
}

/// The sums over every topic and client.
#[derive(Debug, Clone, Copy, PartialEq, Eq, Structural)]
pub struct OverallStats {
    pub topic_count: u64,
    pub channel_count: u64,
    pub client_count: u64,
    pub message_count: u64,
    pub total_depth: u64,
    pub total_backend_depth: u64,
    pub total_in_flight_count: u64,
    pub total_deferred_count: u64,
    pub total_requeue_count: u64,
    pub total_timeout_count: u64,
    pub total_bytes_received: u64,
    pub total_bytes_sent: u64,
    pub total_commands_received: u64,
    pub total_commands_sent: u64,
}

/// Everything that the broker reports.
#[derive(Debug)]
pub struct NsqdStats {
    pub server: ServerInfo,
    pub topics: Vec<TopicStats>,
    pub clients: Vec<ClientStats>,
    pub overall: OverallStats,
}

/// `n` as a 64-bit counter: `u64::MAX` where it does not fit.
pub open spec fn capped(n: nat) -> u64 {
    if n <= u64::MAX {
        n as u64
    } else {
        u64::MAX
    }
}

/// The sum of `f` over the topic reports.
pub open spec fn topic_sum(topics: Seq<TopicStats>, f: spec_fn(TopicStats) -> u64) -> nat
    decreases topics.len(),
{
    if topics.len() == 0 {
        0
    } else {
        topic_sum(topics.drop_last(), f) + f(topics.last()) as nat
    }
}

/// The sum of `f` over the client reports.
pub open spec fn client_sum(clients: Seq<ClientStats>, f: spec_fn(ClientStats) -> u64) -> nat
    decreases clients.len(),
{
    if clients.len() == 0 {
        0
    } else {
        client_sum(clients.drop_last(), f) + f(clients.last()) as nat
    }
}

/// The sums over the topic reports `topics` and the client reports
/// `clients`; a sum that does not fit 64 bits stands at the largest value.
pub open spec fn overall_of(topics: Seq<TopicStats>, clients: Seq<ClientStats>) -> OverallStats {
    OverallStats {
        topic_count: topics.len() as u64,
        channel_count: capped(topic_sum(topics, |t: TopicStats| t.channel_count)),
        client_count: clients.len() as u64,
        message_count: capped(topic_sum(topics, |t: TopicStats| t.message_count)),
        total_depth: capped(topic_sum(topics, |t: TopicStats| t.depth)),
        total_backend_depth: capped(topic_sum(topics, |t: TopicStats| t.backend_depth)),
        total_in_flight_count: capped(topic_sum(topics, |t: TopicStats| t.in_flight_count)),
        total_deferred_count: capped(topic_sum(topics, |t: TopicStats| t.deferred_count)),
        total_requeue_count: capped(topic_sum(topics, |t: TopicStats| t.requeue_count)),
        total_timeout_count: capped(topic_sum(topics, |t: TopicStats| t.timeout_count)),
        total_bytes_received: capped(client_sum(clients, |c: ClientStats| c.bytes_received)),
        total_bytes_sent: capped(client_sum(clients, |c: ClientStats| c.bytes_sent)),
        total_commands_received: capped(
            client_sum(clients, |c: ClientStats| c.commands_received),
        ),
        total_commands_sent: capped(client_sum(clients, |c: ClientStats| c.commands_sent)),
    }
}

/// The name of a client state.
pub open spec fn state_text(state: ClientState) -> Seq<char> {
    match state {
        ClientState::Initial => "Initial"@,
        ClientState::Identified => "Identified"@,
        ClientState::Subscribed => "Subscribed"@,
        ClientState::Ready => "Ready"@,
        ClientState::Closed => "Closed"@,
    }
}

/// The name of a client state.
pub fn state_name(state: ClientState) -> (name: String)
    ensures
        name@ == state_text(state),
{
    match state {
        ClientState::Initial => String::from_str("Initial"),
        ClientState::Identified => String::from_str("Identified"),
        ClientState::Subscribed => String::from_str("Subscribed"),
        ClientState::Ready => String::from_str("Ready"),
        ClientState::Closed => String::from_str("Closed"),
    }
}

/// A time span of `seconds` in hours, minutes and seconds.
pub open spec fn uptime_text(seconds: u64) -> Seq<char> {
    decimal_chars((seconds / 3600) as nat) + "h "@ + decimal_chars(((seconds % 3600) / 60) as nat)
        + "m "@ + decimal_chars((seconds % 60) as nat) + "s"@
}

/// Writes a time span of `seconds` as hours, minutes and seconds, such as
/// `1h 2m 3s`.
pub fn format_uptime(seconds: u64) -> (text: String)
    ensures
        text@ == uptime_text(seconds),
{
    let hours = decimal_string(seconds / 3600);
    let minutes = decimal_string((seconds % 3600) / 60);
    let secs = decimal_string(seconds % 60);
    let mut text = String::from_str(hours.as_str());
    text.append("h ");
    text.append(minutes.as_str());
    text.append("m ");
    text.append(secs.as_str());
    text.append("s");
    text
}

/// Whether the report `r` is the report on the channel `c` of a topic that
/// is paused or not, as `topic_paused` tells. The channel of a paused topic
/// is reported as paused.
pub open spec fn reports_channel(r: ChannelStats, c: ChannelView, topic_paused: bool) -> bool {
    &&& r.name@ == c.name
    &&& r.topic_name@ == c.topic_name
    &&& r.created_at == c.created_at
    &&& r.paused == (c.paused || topic_paused)
    &&& r.message_count == c.stats().message_count
    &&& r.depth == c.stats().depth
    &&& r.backend_depth == c.stats().backend_depth
    &&& r.in_flight_count == c.stats().in_flight_count
    &&& r.deferred_count == c.stats().deferred_count
    &&& r.requeue_count == c.stats().requeue_count
    &&& r.timeout_count == c.stats().timeout_count
    &&& r.client_count == c.stats().client_count
}

/// Whether the report `r` is the report on the topic `t`.
pub open spec fn reports_topic(r: TopicStats, t: TopicView) -> bool {
    &&& r.name@ == t.name
    &&& r.created_at == t.created_at
    &&& r.paused == t.paused
    &&& r.message_count == t.stats().message_count
    &&& r.channel_count == t.stats().channel_count
    &&& r.depth == t.stats().depth
    &&& r.backend_depth == t.stats().backend_depth
    &&& r.in_flight_count == t.stats().in_flight_count
    &&& r.deferred_count == t.stats().deferred_count
    &&& r.requeue_count == t.stats().requeue_count
    &&& r.timeout_count == t.stats().timeout_count
    &&& r.channels@.len() == t.channels.len()
    &&& forall|k: int|
        0 <= k < r.channels@.len() ==> reports_channel(
            #[trigger] r.channels@[k],
            t.channels[k],
            t.paused,
        )
}

/// Whether the report `r` is the report on the client `c`.
pub open spec fn reports_client(r: ClientStats, c: ClientView) -> bool {
    &&& r.id == c.info.id
    &&& r.remote_addr@ == c.info.remote_addr@
    &&& r.state@ == state_text(c.state)
    &&& r.rdy_count == c.rdy_count
    &&& r.in_flight_count == c.in_flight.len()
    &&& r.msg_timeout == c.info.msg_timeout
    &&& r.heartbeat_interval == c.info.heartbeat_interval
    &&& r.max_rdy_count == c.info.max_rdy_count
    &&& r.messages_received == c.stats.messages_received
    &&& r.messages_finished == c.stats.messages_finished
    &&& r.bytes_received == c.stats.bytes_received
    &&& r.bytes_sent == c.stats.bytes_sent
    &&& r.commands_received == c.stats.commands_received
    &&& r.commands_sent == c.stats.commands_sent
    &&& match r.topic {
        Some(t) => c.topic == Some(t@),
        None => c.topic is None,
    }
    &&& match r.channel {
        Some(ch) => c.channel == Some(ch@),
        None => c.channel is None,
    }
}

/// A copy of an optional string.
fn clone_text(s: &Option<String>) -> (out: Option<String>)
    ensures
        match out {
            Some(o) => *s is Some && o@ == s->Some_0@,
            None => *s is None,
        },
{
    match s {
        Some(s) => Some(s.clone()),
        None => None,
    }
}

/// The report on the channel `c` of a topic that is paused or not, as
/// `topic_paused` tells.
pub fn channel_report(c: &Channel, topic_paused: bool) -> (r: ChannelStats)
    ensures
        reports_channel(r, c@, topic_paused),
{
    let stats = c.stats();
    ChannelStats {
        name: c.name().clone(),
        topic_name: c.topic_name().clone(),
        created_at: c.created_at(),
        paused: c.is_paused() || topic_paused,
        message_count: stats.message_count,
        depth: stats.depth,
        backend_depth: stats.backend_depth,
        in_flight_count: stats.in_flight_count,
        deferred_count: stats.deferred_count,
        requeue_count: stats.requeue_count,
        timeout_count: stats.timeout_count,
        client_count: stats.client_count,
    }
}

/// The report on the topic `t`, with the reports on its channels in their
/// order.
pub fn topic_report(t: &Topic) -> (r: TopicStats)
    ensures
        reports_topic(r, t@),
{
    let stats = t.stats();
    let channels = t.get_channels();
    let paused = t.is_paused();
    let mut reports: Vec<ChannelStats> = Vec::new();
    let n = channels.len();
    let mut k: usize = 0;
    while k < n
        invariant
            k <= n,
            n == channels@.len(),
            channel_views(channels@) == t@.channels,
            paused == t@.paused,
            reports@.len() == k,
            forall|j: int|
                0 <= j < k ==> reports_channel(
                    #[trigger] reports@[j],
                    channel_views(channels@)[j],
                    paused,
                ),
        decreases n - k,
    {
        reports.push(channel_report(&channels[k], paused));
        k = k + 1;
    }
    TopicStats {
        name: t.name().clone(),
        created_at: t.created_at(),
        paused: t.is_paused(),
        message_count: stats.message_count,
        channel_count: stats.channel_count,
        depth: stats.depth,
        backend_depth: stats.backend_depth,
        in_flight_count: stats.in_flight_count,
        deferred_count: stats.deferred_count,
        requeue_count: stats.requeue_count,
        timeout_count: stats.timeout_count,
        channels: reports,
    }
}

/// The report on the client `c`.
pub fn client_report(c: &Client) -> (r: ClientStats)
    ensures
        reports_client(r, c@),
{
    let info = c.info();
    let stats = c.stats();
    ClientStats {
        id: info.id,
        remote_addr: info.remote_addr.clone(),
        user_agent: clone_text(&info.user_agent),
        client_version: clone_text(&info.client_version),
        hostname: clone_text(&info.hostname),
        deflate: info.deflate,
        snappy: info.snappy,
        sample_rate: info.sample_rate,
        heartbeat_interval: info.heartbeat_interval,
        output_buffer_size: info.output_buffer_size,
        output_buffer_timeout: info.output_buffer_timeout,
        max_rdy_count: info.max_rdy_count,
        max_msg_timeout: info.max_msg_timeout,
        msg_timeout: info.msg_timeout,
        state: state_name(c.state()),
        topic: c.topic(),
        channel: c.channel(),
        rdy_count: c.rdy_count(),
        in_flight_count: c.in_flight_count() as u64,
        messages_received: stats.messages_received,
        messages_finished: stats.messages_finished,
        messages_requeued: stats.messages_requeued,
        messages_timed_out: stats.messages_timed_out,
        bytes_received: stats.bytes_received,
        bytes_sent: stats.bytes_sent,
        commands_received: stats.commands_received,
        commands_sent: stats.commands_sent,
    }
}

/// The reports on the topics of the broker, in their order.
pub fn get_topic_stats(server: &NsqdServer) -> (out: Vec<TopicStats>)
    ensures
        out@.len() == server@.topics.len(),
        forall|k: int| 0 <= k < out@.len() ==> reports_topic(#[trigger] out@[k], server@.topics[k]),
{
    let topics = server.topics();
    let mut out: Vec<TopicStats> = Vec::new();
    let n = topics.len();
    let mut k: usize = 0;
    while k < n
        invariant
            k <= n,
            n == topics@.len(),
            topic_views(topics@) == server@.topics,
            out@.len() == k,
            forall|j: int| 0 <= j < k ==> reports_topic(#[trigger] out@[j], topic_views(topics@)[j]),
        decreases n - k,
    {
        out.push(topic_report(&topics[k]));
        k = k + 1;
    }
    out
}

/// The reports on the clients of the broker, in their order.
pub fn get_client_stats(server: &NsqdServer) -> (out: Vec<ClientStats>)
    ensures
        out@.len() == server@.clients.len(),
        forall|k: int|
            0 <= k < out@.len() ==> reports_client(#[trigger] out@[k], server@.clients[k]),
{
    let clients = server.clients();
    let mut out: Vec<ClientStats> = Vec::new();
    let n = clients.len();
    let mut k: usize = 0;
    while k < n
        invariant
            k <= n,
            n == clients@.len(),
            client_views(clients@) == server@.clients,
            out@.len() == k,
            forall|j: int|
                0 <= j < k ==> reports_client(#[trigger] out@[j], client_views(clients@)[j]),
        decreases n - k,
    {
        out.push(client_report(&clients[k]));
        k = k + 1;
    }
    out
}

/// Adds up the reports on the topics and the clients.
pub fn get_overall_stats(topics: &Vec<TopicStats>, clients: &Vec<ClientStats>) -> (overall:
    OverallStats)
    ensures
        overall == overall_of(topics@, clients@),
{
    let mut overall = OverallStats {
        topic_count: topics.len() as u64,
        channel_count: 0,
        client_count: clients.len() as u64,
        message_count: 0,
        total_depth: 0,
        total_backend_depth: 0,
        total_in_flight_count: 0,
        total_deferred_count: 0,
        total_requeue_count: 0,
        total_timeout_count: 0,
        total_bytes_received: 0,
        total_bytes_sent: 0,
        total_commands_received: 0,
        total_commands_sent: 0,
    };
    let n = topics.len();
    let mut k: usize = 0;
    proof {
        assert(topics@.take(0) =~= Seq::<TopicStats>::empty());
    }
    while k < n
        invariant
            k <= n,
            n == topics@.len(),
            overall.topic_count == n,
            overall.client_count == clients@.len(),
            overall.total_bytes_received == 0,
            overall.total_bytes_sent == 0,
            overall.total_commands_received == 0,
            overall.total_commands_sent == 0,
            overall.channel_count == capped(
                topic_sum(topics@.take(k as int), |t: TopicStats| t.channel_count),
            ),
            overall.message_count == capped(
                topic_sum(topics@.take(k as int), |t: TopicStats| t.message_count),
            ),
            overall.total_depth == capped(topic_sum(topics@.take(k as int), |t: TopicStats| t.depth)),
            overall.total_backend_depth == capped(
                topic_sum(topics@.take(k as int), |t: TopicStats| t.backend_depth),
            ),
            overall.total_in_flight_count == capped(
                topic_sum(topics@.take(k as int), |t: TopicStats| t.in_flight_count),
            ),
            overall.total_deferred_count == capped(
                topic_sum(topics@.take(k as int), |t: TopicStats| t.deferred_count),
            ),
            overall.total_requeue_count == capped(
                topic_sum(topics@.take(k as int), |t: TopicStats| t.requeue_count),
            ),
            overall.total_timeout_count == capped(
                topic_sum(topics@.take(k as int), |t: TopicStats| t.timeout_count),
            ),
        decreases n - k,
    {
        let t = &topics[k];
        proof {
            assert(topics@.take(k + 1).drop_last() =~= topics@.take(k as int));
            assert(topics@.take(k + 1).last() == topics@[k as int]);
        }
        overall.channel_count = overall.channel_count.saturating_add(t.channel_count);
        overall.message_count = overall.message_count.saturating_add(t.message_count);
        overall.total_depth = overall.total_depth.saturating_add(t.depth);
        overall.total_backend_depth = overall.total_backend_depth.saturating_add(t.backend_depth);
        overall.total_in_flight_count = overall.total_in_flight_count.saturating_add(
            t.in_flight_count,
        );
        overall.total_deferred_count = overall.total_deferred_count.saturating_add(
            t.deferred_count,
        );
        overall.total_requeue_count = overall.total_requeue_count.saturating_add(t.requeue_count);
        overall.total_timeout_count = overall.total_timeout_count.saturating_add(t.timeout_count);
        k = k + 1;
    }
    proof {
        assert(topics@.take(n as int) =~= topics@);
    }
    let m = clients.len();
    let mut j: usize = 0;
    let ghost done = overall;
    proof {
        assert(clients@.take(0) =~= Seq::<ClientStats>::empty());
    }
    while j < m
        invariant
            j <= m,
            m == clients@.len(),
            overall == (OverallStats {
                total_bytes_received: capped(
                    client_sum(clients@.take(j as int), |c: ClientStats| c.bytes_received),
                ),
                total_bytes_sent: capped(
                    client_sum(clients@.take(j as int), |c: ClientStats| c.bytes_sent),
                ),
                total_commands_received: capped(
                    client_sum(clients@.take(j as int), |c: ClientStats| c.commands_received),
                ),
                total_commands_sent: capped(
                    client_sum(clients@.take(j as int), |c: ClientStats| c.commands_sent),
                ),
                ..done
            }),
        decreases m - j,
    {
        let c = &clients[j];
        proof {
            assert(clients@.take(j + 1).drop_last() =~= clients@.take(j as int));
            assert(clients@.take(j + 1).last() == clients@[j as int]);
        }
        overall.total_bytes_received = overall.total_bytes_received.saturating_add(c.bytes_received);
        overall.total_bytes_sent = overall.total_bytes_sent.saturating_add(c.bytes_sent);
        overall.total_commands_received = overall.total_commands_received.saturating_add(
            c.commands_received,
        );
        overall.total_commands_sent = overall.total_commands_sent.saturating_add(c.commands_sent);
        j = j + 1;
    }
    proof {
        assert(clients@.take(m as int) =~= clients@);
    }
    overall
}

/// The whole seconds from `started` to `now`, both in milliseconds; zero
/// where `now` is the earlier.
pub open spec fn uptime_of(started: u64, now: u64) -> u64 {
    if now >= started {
        ((now - started) / 1000) as u64
    } else {
        0
    }
}

/// What a broker that tells `info` of itself and started at `started`
/// reports of itself at `now`: `info`, with the time it has run.
pub open spec fn told_at(info: ServerInfo, started: u64, now: u64) -> ServerInfo {
    ServerInfo { uptime: uptime_of(started, now), ..info }
}

/// Keeps what the broker tells of itself, and puts the reports together.
#[derive(Debug)]
pub struct StatsCollector {
    server_info: ServerInfo,
    start_time: u64,
}

impl StatsCollector {
    /// A collector for a broker that started at `start_time`, in
    /// milliseconds since the Unix epoch, and tells `server_info` of itself.
    pub fn new(server_info: ServerInfo, start_time: u64) -> (c: StatsCollector)
        ensures
            c.started_at() == start_time,
            c.info() == server_info,
    {
        StatsCollector { server_info, start_time }
    }

    /// What the broker tells of itself.
    pub closed spec fn info(self) -> ServerInfo {
        self.server_info
    }

    /// When the broker started.
    pub closed spec fn started_at(self) -> u64 {
        self.start_time
    }

    /// Replaces what the broker tells of itself.
    pub fn update_server_info(&mut self, info: ServerInfo)
        ensures
            final(self).started_at() == old(self).started_at(),
            final(self).info() == info,
    {
        self.server_info = info;
    }

    /// How long the broker has run at `now`, in seconds.
    pub fn uptime_at(&self, now: u64) -> (seconds: u64)
        ensures
            seconds == uptime_of(self.started_at(), now),
    {
        if now >= self.start_time {
            (now - self.start_time) / 1000
        } else {
            0
        }
    }

    /// Everything that the broker `server` reports as of now.
    pub fn get_stats(&self, server: &NsqdServer) -> (stats: NsqdStats)
        ensures
            exists|now: u64| stats.server == #[trigger] told_at(self.info(), self.started_at(), now),
            stats.topics@.len() == server@.topics.len(),
            forall|k: int|
                0 <= k < stats.topics@.len() ==> reports_topic(
                    #[trigger] stats.topics@[k],
                    server@.topics[k],
                ),
            stats.clients@.len() == server@.clients.len(),
            forall|k: int|
                0 <= k < stats.clients@.len() ==> reports_client(
                    #[trigger] stats.clients@[k],
                    server@.clients[k],
                ),
            stats.overall == overall_of(stats.topics@, stats.clients@),
    {
        let now = crate::clock::now_millis();
        let stats = self.get_stats_at(server, now);
        proof {
            assert(stats.server == told_at(self.info(), self.started_at(), now));
        }
        stats
    }

    /// Everything that the broker `server` reports at `now`: what it tells
    /// of itself, with the time it has run, the reports on its topics and
    /// clients, in their order, and their sums.
    pub fn get_stats_at(&self, server: &NsqdServer, now: u64) -> (stats: NsqdStats)
        ensures
            stats.server == told_at(self.info(), self.started_at(), now),
            stats.topics@.len() == server@.topics.len(),
            forall|k: int|
                0 <= k < stats.topics@.len() ==> reports_topic(
                    #[trigger] stats.topics@[k],
                    server@.topics[k],
                ),
            stats.clients@.len() == server@.clients.len(),
            forall|k: int|
                0 <= k < stats.clients@.len() ==> reports_client(
                    #[trigger] stats.clients@[k],
                    server@.clients[k],
                ),
            stats.overall == overall_of(stats.topics@, stats.clients@),
    {
        let info = &self.server_info;
        let server_info = ServerInfo {
            version: info.version.clone(),
            build_version: info.build_version.clone(),
            start_time: info.start_time,
            uptime: self.uptime_at(now),
            tcp_port: info.tcp_port,
            http_port: info.http_port,
            https_port: info.https_port,
            data_path: info.data_path.clone(),
            mem_queue_size: info.mem_queue_size,
            max_msg_size: info.max_msg_size,
            max_body_size: info.max_body_size,
            max_req_timeout: info.max_req_timeout,
            max_msg_timeout: info.max_msg_timeout,
            msg_timeout: info.msg_timeout,
            max_output_buffer_size: info.max_output_buffer_size,
            max_output_buffer_timeout: info.max_output_buffer_timeout,
            disable_http: info.disable_http,
            disable_https: info.disable_https,
        };
        let topics = get_topic_stats(server);
        let clients = get_client_stats(server);
        let overall = get_overall_stats(&topics, &clients);
        NsqdStats { server: server_info, topics, clients, overall }
    }
}

} // verus!
