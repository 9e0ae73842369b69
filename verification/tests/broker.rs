use nsq::channel::ChannelOp;
use nsq::client::{step, Client, ClientEvent, ClientInfo, ClientState, HeartbeatAction};
use nsq::command::Command;
use nsq::config::NsqdConfig;
use nsq::disk_queue::{scan_segment, DiskQueue, Segment};
use nsq::errors::NsqError;
use nsq::frame::FrameType;
use nsq::message::{Message, MessageId};
use nsq::message_queue::ClientId;
use nsq::protocol::{
    bound, identify_response, negotiate, ErrorCode, Grants, IdentifyRequest, Reply,
};
use nsq::server::NsqdServer;
use nsq::stats::{
    channel_report, client_report, format_uptime, get_client_stats, get_overall_stats,
    get_topic_stats, state_name, topic_report, ServerInfo, StatsCollector,
};

fn memory_only() -> NsqdConfig {
    let mut config = NsqdConfig::default();
    config.data_path = String::new();
    config
}

fn broker() -> NsqdServer {
    NsqdServer::new(memory_only()).unwrap()
}

fn connect(server: &mut NsqdServer) -> ClientId {
    server.add_client(ClientInfo::default())
}

fn is_error(reply: &Reply, code: ErrorCode) -> bool {
    matches!(reply, Reply::Error(c) if *c == code)
}

fn subscribe(server: &mut NsqdServer, topic: &str, channel: &str, now: u64) -> ClientId {
    let id = connect(server);
    let identify = Command::Identify { data: b"{}".to_vec() };
    assert!(matches!(server.handle_command_at(id, identify, now), Reply::Response(_)));
    let sub = Command::Sub { topic: topic.to_string(), channel: channel.to_string() };
    assert!(matches!(server.handle_command_at(id, sub, now), Reply::Done));
    id
}

#[test]
fn publish_consume_round_trip() {
    let mut server = broker();
    server.publish("t1", b"hello".to_vec()).unwrap();
    let id = subscribe(&mut server, "t1", "c1", 1000);
    assert!(matches!(server.handle_command_at(id, Command::Rdy { count: 1 }, 1000), Reply::Nothing));
    assert_eq!(server.get_client(id).unwrap().state(), ClientState::Ready);

    let delivery = server.deliver_at("t1", "c1", 1001).unwrap();
    assert_eq!(delivery.client_id, id);
    assert_eq!(delivery.message.id.to_bytes().len(), 16);
    assert_eq!(delivery.message.body, b"hello".to_vec());
    assert_eq!(delivery.message.attempts, 0);
    assert_eq!(server.get_client(id).unwrap().in_flight_count(), 1);
    assert_eq!(server.get_client(id).unwrap().rdy_count(), 0);
    assert!(server.deliver_at("t1", "c1", 1002).is_none());

    let fin = Command::Fin { message_id: delivery.message.id.to_bytes() };
    assert!(matches!(server.handle_command_at(id, fin, 1003), Reply::Nothing));

    let topics = get_topic_stats(&server);
    assert_eq!(topics[0].name, "t1");
    assert_eq!(topics[0].message_count, 1);
    assert_eq!(topics[0].channels[0].name, "c1");
    assert_eq!(topics[0].channels[0].depth, 0);
    assert_eq!(topics[0].channels[0].in_flight_count, 0);
    assert_eq!(server.get_client(id).unwrap().in_flight_count(), 0);
}

#[test]
fn timeout_requeue_increments_attempts() {
    let mut server = broker();
    server.publish("t1", b"hello".to_vec()).unwrap();
    let first = connect(&mut server);
    let identify = Command::Identify { data: b"{\"msg_timeout\":100}".to_vec() };
    assert!(matches!(server.handle_command_at(first, identify, 0), Reply::Response(_)));
    assert_eq!(server.get_client(first).unwrap().info().msg_timeout, 100);
    let sub = Command::Sub { topic: "t1".to_string(), channel: "c1".to_string() };
    assert!(matches!(server.handle_command_at(first, sub, 0), Reply::Done));
    server.handle_command_at(first, Command::Rdy { count: 1 }, 0);
    let delivered = server.deliver_at("t1", "c1", 0).unwrap();
    assert_eq!(delivered.message.attempts, 0);

    server.tick_at(99);
    assert_eq!(get_topic_stats(&server)[0].channels[0].in_flight_count, 1);
    server.tick_at(250);
    let channel = &get_topic_stats(&server)[0].channels[0];
    assert_eq!((channel.in_flight_count, channel.depth, channel.timeout_count), (0, 1, 1));

    server.handle_command_at(first, Command::Rdy { count: 1 }, 251);
    let again = server.deliver_at("t1", "c1", 252).unwrap();
    assert_eq!(again.message.body, b"hello".to_vec());
    assert_eq!(again.message.attempts, 1);
    assert_eq!(again.message.id, delivered.message.id);
}

#[test]
fn fan_out_gives_each_channel_its_own_copy() {
    let mut server = broker();
    let a = subscribe(&mut server, "t2", "c_a", 0);
    let b = subscribe(&mut server, "t2", "c_b", 0);
    server.handle_command_at(a, Command::Rdy { count: 1 }, 0);
    server.handle_command_at(b, Command::Rdy { count: 1 }, 0);
    server.publish("t2", b"x".to_vec()).unwrap();
    let da = server.deliver_at("t2", "c_a", 1).unwrap();
    let db = server.deliver_at("t2", "c_b", 1).unwrap();
    assert_eq!((da.client_id, db.client_id), (a, b));
    assert_eq!(da.message.body, b"x".to_vec());
    assert_eq!(db.message.body, b"x".to_vec());
    assert_eq!(da.message.id.to_bytes().len(), 16);
    assert_ne!(da.message.id, db.message.id);
    let topics = get_topic_stats(&server);
    assert_eq!(topics[0].message_count, 1);
    assert_eq!(topics[0].in_flight_count, 2);
}

#[test]
fn client_loss_requeues_in_flight() {
    let mut server = broker();
    server.publish("t1", b"hello".to_vec()).unwrap();
    let id = subscribe(&mut server, "t1", "c1", 0);
    server.handle_command_at(id, Command::Rdy { count: 1 }, 0);
    let delivery = server.deliver_at("t1", "c1", 1).unwrap();
    assert_eq!(get_topic_stats(&server)[0].channels[0].in_flight_count, 1);

    server.remove_client(id);
    let channel = &get_topic_stats(&server)[0].channels[0];
    assert_eq!(channel.in_flight_count, 0);
    assert_eq!(channel.depth, 1);
    assert_eq!(channel.client_count, 0);
    assert!(server.get_client(id).is_none());

    let next = subscribe(&mut server, "t1", "c1", 2);
    server.handle_command_at(next, Command::Rdy { count: 1 }, 2);
    let again = server.deliver_at("t1", "c1", 3).unwrap();
    assert_eq!(again.message.id, delivery.message.id);
    assert_eq!(again.message.attempts, 1);
    assert_eq!(again.client_id, next);
}

#[test]
fn close_command_releases_the_client() {
    let mut server = broker();
    server.publish("t", b"m".to_vec()).unwrap();
    let id = subscribe(&mut server, "t", "c", 0);
    server.handle_command_at(id, Command::Rdy { count: 1 }, 0);
    server.deliver_at("t", "c", 1).unwrap();
    let reply = server.handle_command_at(id, Command::Close, 2);
    assert!(matches!(reply, Reply::CloseWait));
    assert!(reply.closes());
    assert_eq!(reply.to_frame().unwrap().body, b"CLOSE_WAIT".to_vec());
    assert!(server.get_client(id).is_none());
    let channel = &get_topic_stats(&server)[0].channels[0];
    assert_eq!((channel.depth, channel.in_flight_count), (1, 0));
}

#[test]
fn topic_create_twice_is_a_no_op() {
    let mut server = broker();
    server.create_topic_at("t", 5).unwrap();
    server.publish("t", b"m".to_vec()).unwrap();
    server.create_topic_at("t", 9).unwrap();
    server.get_or_create_topic("t").unwrap();
    assert_eq!(server.topics().len(), 1);
    assert_eq!(server.get_topic("t").unwrap().created_at(), 5);
    assert_eq!(server.get_topic("t").unwrap().message_count(), 1);
    assert!(matches!(server.get_or_create_topic("not ok"), Err(NsqError::Validation(_))));
    assert_eq!(server.topics().len(), 1);
}

#[test]
fn topic_pause_and_delete() {
    let mut server = broker();
    let id = subscribe(&mut server, "t", "c", 0);
    server.handle_command_at(id, Command::Rdy { count: 5 }, 0);
    server.pause_topic("t").unwrap();
    server.pause_topic("t").unwrap();
    server.publish("t", b"m".to_vec()).unwrap();
    assert!(server.deliver_at("t", "c", 1).is_none());
    assert!(get_topic_stats(&server)[0].paused);
    assert_eq!(get_topic_stats(&server)[0].channels[0].depth, 1);
    server.unpause_topic("t").unwrap();
    assert!(server.deliver_at("t", "c", 1).is_some());
    assert!(matches!(server.pause_topic("missing"), Err(NsqError::Validation(_))));

    server.delete_channel("t", "c").unwrap();
    assert!(matches!(server.delete_channel("t", "c"), Err(NsqError::Validation(_))));
    assert!(server.get_topic("t").is_some());
    server.delete_topic("t").unwrap();
    server.delete_topic("t").unwrap();
    assert!(server.get_topic("t").is_none());
    assert!(server.topics().is_empty());
}

#[test]
fn channel_operations_through_the_broker() {
    let mut server = broker();
    server.create_channel_at("t", "c", 0).unwrap();
    server.create_channel("t", "c").unwrap();
    assert_eq!(server.get_topic("t").unwrap().get_channels().len(), 1);
    assert!(matches!(server.create_channel("t", "bad name"), Err(NsqError::Validation(_))));
    assert!(matches!(server.create_channel("", "c"), Err(NsqError::Validation(_))));
    server.publish("t", b"a".to_vec()).unwrap();
    server.publish("t", b"b".to_vec()).unwrap();
    server.apply("t", "c", ChannelOp::Pause, 0).unwrap();
    assert!(server.get_topic("t").unwrap().get_channel("c").unwrap().is_paused());
    server.apply("t", "c", ChannelOp::Unpause, 0).unwrap();
    server.apply("t", "c", ChannelOp::Empty, 0).unwrap();
    server.apply("t", "c", ChannelOp::Empty, 0).unwrap();
    assert_eq!(get_topic_stats(&server)[0].channels[0].depth, 0);
    assert!(matches!(server.apply("t", "zz", ChannelOp::Empty, 0), Err(NsqError::Validation(_))));
    assert!(matches!(server.apply("zz", "c", ChannelOp::Empty, 0), Err(NsqError::Validation(_))));
    let missing = ChannelOp::Finish(MessageId { hi: 1, lo: 1 });
    assert!(matches!(server.apply("t", "c", missing, 0), Err(NsqError::Queue(_))));
}

#[test]
fn body_size_boundaries() {
    let mut config = memory_only();
    config.max_msg_size = 8;
    let mut server = NsqdServer::new(config).unwrap();
    server.publish("t", Vec::new()).unwrap();
    server.publish("t", vec![0u8; 8]).unwrap();
    let err = server.publish("t", vec![0u8; 9]).unwrap_err();
    assert!(matches!(err, NsqError::Validation(_)));
    assert_eq!(server.get_topic("t").unwrap().message_count(), 2);
    assert!(matches!(server.publish("bad topic", vec![1]), Err(NsqError::Validation(_))));
    assert!(matches!(server.publish(&"x".repeat(65), vec![1]), Err(NsqError::Validation(_))));
    server.publish(&"x".repeat(64), vec![1]).unwrap();
}

#[test]
fn full_queue_without_disk_fails_the_publish() {
    let mut config = memory_only();
    config.mem_queue_size = 2;
    let mut server = NsqdServer::new(config).unwrap();
    server.publish("t", b"1".to_vec()).unwrap();
    server.publish("t", b"2".to_vec()).unwrap();
    assert!(matches!(server.publish("t", b"3".to_vec()), Err(NsqError::Queue(_))));
    let id = connect(&mut server);
    server.handle_command_at(id, Command::Identify { data: b"{}".to_vec() }, 0);
    let reply =
        server.handle_command_at(id, Command::Pub { topic: "t".to_string(), body: b"4".to_vec() }, 0);
    assert!(is_error(&reply, ErrorCode::PubFailed));
    assert!(!reply.closes());
}

#[test]
fn disk_backed_broker_spills() {
    let mut config = NsqdConfig::default();
    config.mem_queue_size = 1;
    let mut server = NsqdServer::new(config).unwrap();
    assert!(server.limits().disk_backed);
    server.publish("t", b"1".to_vec()).unwrap();
    server.publish("t", b"2".to_vec()).unwrap();
    server.publish("t", b"3".to_vec()).unwrap();
    let stats = &get_topic_stats(&server)[0];
    assert_eq!((stats.depth, stats.backend_depth, stats.message_count), (1, 2, 3));
}

#[test]
fn protocol_state_machine() {
    assert_eq!(step(ClientState::Initial, ClientEvent::Identify), Some(ClientState::Identified));
    assert_eq!(step(ClientState::Identified, ClientEvent::Identify), None);
    assert_eq!(step(ClientState::Initial, ClientEvent::Subscribe), None);
    assert_eq!(step(ClientState::Identified, ClientEvent::Subscribe), Some(ClientState::Subscribed));
    assert_eq!(step(ClientState::Subscribed, ClientEvent::Subscribe), None);
    assert_eq!(step(ClientState::Subscribed, ClientEvent::Credit(1)), Some(ClientState::Ready));
    assert_eq!(step(ClientState::Ready, ClientEvent::Credit(0)), Some(ClientState::Subscribed));
    assert_eq!(step(ClientState::Ready, ClientEvent::Credit(3)), Some(ClientState::Ready));
    assert_eq!(step(ClientState::Identified, ClientEvent::Credit(1)), None);
    assert_eq!(step(ClientState::Closed, ClientEvent::Credit(1)), None);
    for state in [
        ClientState::Initial,
        ClientState::Identified,
        ClientState::Subscribed,
        ClientState::Ready,
        ClientState::Closed,
    ] {
        assert_eq!(step(state, ClientEvent::Close), Some(ClientState::Closed));
    }
}

#[test]
fn commands_out_of_order_are_fatal() {
    let mut server = broker();
    let id = connect(&mut server);
    let sub = Command::Sub { topic: "t".to_string(), channel: "c".to_string() };
    let reply = server.handle_command_at(id, sub, 0);
    assert!(is_error(&reply, ErrorCode::Invalid));
    assert!(reply.closes());
    let frame = reply.to_frame().unwrap();
    assert_eq!(frame.frame_type, FrameType::Error);
    assert_eq!(frame.body, b"E_INVALID".to_vec());

    let publish = Command::Pub { topic: "t".to_string(), body: b"x".to_vec() };
    assert!(is_error(&server.handle_command_at(id, publish, 0), ErrorCode::Invalid));
    assert!(is_error(&server.handle_command_at(id, Command::Rdy { count: 1 }, 0), ErrorCode::Invalid));
    let fin = Command::Fin { message_id: vec![0u8; 16] };
    assert!(is_error(&server.handle_command_at(id, fin, 0), ErrorCode::Invalid));

    let identify = Command::Identify { data: b"{}".to_vec() };
    assert!(matches!(server.handle_command_at(id, identify.clone(), 0), Reply::Response(_)));
    assert!(is_error(&server.handle_command_at(id, identify, 0), ErrorCode::Invalid));

    let stranger = ClientId { hi: 1, lo: 2 };
    assert!(is_error(&server.handle_command_at(stranger, Command::Rdy { count: 1 }, 0), ErrorCode::Invalid));
    assert!(matches!(server.handle_command_at(stranger, Command::Nop, 0), Reply::Nothing));
}

#[test]
fn domain_errors_are_not_fatal() {
    let mut server = broker();
    let id = connect(&mut server);
    server.handle_command_at(id, Command::Identify { data: b"{}".to_vec() }, 0);
    let bad_topic = Command::Sub { topic: "no good".to_string(), channel: "c".to_string() };
    let reply = server.handle_command_at(id, bad_topic, 0);
    assert!(is_error(&reply, ErrorCode::BadTopic) && !reply.closes());
    assert_eq!(reply.to_frame().unwrap().body, b"E_BAD_TOPIC".to_vec());
    let bad_channel = Command::Sub { topic: "t".to_string(), channel: "c!".to_string() };
    assert!(is_error(&server.handle_command_at(id, bad_channel, 0), ErrorCode::BadChannel));
    let bad_pub = Command::Pub { topic: "t t".to_string(), body: vec![] };
    assert!(is_error(&server.handle_command_at(id, bad_pub, 0), ErrorCode::BadTopic));
    let big = Command::Pub { topic: "t".to_string(), body: vec![0u8; 1024 * 1024 + 1] };
    assert!(is_error(&server.handle_command_at(id, big, 0), ErrorCode::BadMessage));
    let fits = Command::Pub { topic: "t".to_string(), body: vec![0u8; 1024 * 1024] };
    assert!(matches!(server.handle_command_at(id, fits, 0), Reply::Done));
    let auth = Command::Auth { secret: "pw".to_string() };
    assert!(is_error(&server.handle_command_at(id, auth, 0), ErrorCode::AuthFailed));

    let sub = Command::Sub { topic: "t".to_string(), channel: "c".to_string() };
    assert!(matches!(server.handle_command_at(id, sub, 0), Reply::Done));
    assert_eq!(server.get_client(id).unwrap().topic(), Some("t".to_string()));
    assert_eq!(server.get_client(id).unwrap().channel(), Some("c".to_string()));
    let unknown = vec![7u8; 16];
    let fin = Command::Fin { message_id: unknown.clone() };
    assert!(is_error(&server.handle_command_at(id, fin, 0), ErrorCode::FinFailed));
    let req = Command::Req { message_id: unknown.clone(), timeout: 0 };
    assert!(is_error(&server.handle_command_at(id, req, 0), ErrorCode::ReqFailed));
    let touch = Command::Touch { message_id: unknown };
    assert!(is_error(&server.handle_command_at(id, touch, 0), ErrorCode::TouchFailed));
    let short = Command::Fin { message_id: vec![7u8; 15] };
    assert!(is_error(&server.handle_command_at(id, short, 0), ErrorCode::Invalid));
    assert_eq!(server.get_client(id).unwrap().stats().commands_received, 12);
}

#[test]
fn rdy_over_the_limit_is_rejected() {
    let mut server = broker();
    let id = subscribe(&mut server, "t", "c", 0);
    assert!(matches!(server.handle_command_at(id, Command::Rdy { count: 2500 }, 0), Reply::Nothing));
    assert_eq!(server.get_client(id).unwrap().rdy_count(), 2500);
    let reply = server.handle_command_at(id, Command::Rdy { count: 2501 }, 0);
    assert!(is_error(&reply, ErrorCode::Invalid));
    assert_eq!(server.get_client(id).unwrap().rdy_count(), 2500);
    assert!(matches!(server.handle_command_at(id, Command::Rdy { count: 0 }, 0), Reply::Nothing));
    assert_eq!(server.get_client(id).unwrap().state(), ClientState::Subscribed);
    assert!(!server.get_client(id).unwrap().is_ready());
}

#[test]
fn requeue_and_touch_through_the_protocol() {
    let mut server = broker();
    server.publish("t", b"m".to_vec()).unwrap();
    let id = subscribe(&mut server, "t", "c", 0);
    server.handle_command_at(id, Command::Rdy { count: 3 }, 0);
    let d = server.deliver_at("t", "c", 0).unwrap();
    let bytes = d.message.id.to_bytes();
    let touch = Command::Touch { message_id: bytes.clone() };
    assert!(matches!(server.handle_command_at(id, touch, 59_000), Reply::Nothing));
    server.tick_at(60_000);
    assert_eq!(get_topic_stats(&server)[0].channels[0].in_flight_count, 1);
    let req = Command::Req { message_id: bytes.clone(), timeout: 1_000_000 };
    assert!(matches!(server.handle_command_at(id, req, 60_000), Reply::Nothing));
    let channel = &get_topic_stats(&server)[0].channels[0];
    assert_eq!((channel.in_flight_count, channel.deferred_count, channel.requeue_count), (0, 1, 1));
    assert_eq!(server.get_client(id).unwrap().in_flight_count(), 0);
    server.tick_at(119_999);
    assert_eq!(get_topic_stats(&server)[0].channels[0].deferred_count, 1);
    server.tick_at(120_000);
    assert_eq!(get_topic_stats(&server)[0].channels[0].depth, 1);
    let again = server.deliver_at("t", "c", 120_001).unwrap();
    assert_eq!(again.message.attempts, 1);
    let req = Command::Req { message_id: bytes, timeout: 0 };
    assert!(matches!(server.handle_command_at(id, req, 120_002), Reply::Nothing));
    assert_eq!(get_topic_stats(&server)[0].channels[0].depth, 1);
}

#[test]
fn mpub_and_dpub_through_the_protocol() {
    let mut config = memory_only();
    config.max_msg_size = 4;
    config.max_body_size = 6;
    config.mem_queue_size = 3;
    let mut server = NsqdServer::new(config).unwrap();
    let id = subscribe(&mut server, "t", "c", 0);
    let batch = |bodies: Vec<&[u8]>| Command::Mpub {
        topic: "t".to_string(),
        bodies: bodies.into_iter().map(|b| b.to_vec()).collect(),
    };
    assert!(matches!(server.handle_command_at(id, batch(vec![b"ab", b"cd"]), 0), Reply::Done));
    assert_eq!(get_topic_stats(&server)[0].channels[0].depth, 2);
    let reply = server.handle_command_at(id, batch(vec![b"abcde"]), 0);
    assert!(is_error(&reply, ErrorCode::BadMessage));
    let reply = server.handle_command_at(id, batch(vec![b"abcd", b"abc"]), 0);
    assert!(is_error(&reply, ErrorCode::BadMessage));
    let reply = server.handle_command_at(id, batch(vec![b"a", b"b"]), 0);
    assert!(is_error(&reply, ErrorCode::PubFailed));
    assert_eq!(get_topic_stats(&server)[0].channels[0].depth, 2);
    assert_eq!(get_topic_stats(&server)[0].message_count, 2);

    let dpub = Command::Dpub { topic: "t".to_string(), delay: 500, body: b"late".to_vec() };
    assert!(matches!(server.handle_command_at(id, dpub, 1000), Reply::Done));
    let channel = &get_topic_stats(&server)[0].channels[0];
    assert_eq!((channel.depth, channel.deferred_count), (2, 1));
    server.tick_at(1499);
    assert_eq!(get_topic_stats(&server)[0].channels[0].deferred_count, 1);
    server.tick_at(1500);
    assert_eq!(get_topic_stats(&server)[0].channels[0].depth, 3);
    let too_late = Command::Dpub { topic: "t".to_string(), delay: 60_001, body: b"x".to_vec() };
    assert!(is_error(&server.handle_command_at(id, too_late, 0), ErrorCode::Invalid));
}

#[test]
fn handle_command_uses_the_clock() {
    let mut server = broker();
    let id = connect(&mut server);
    assert!(matches!(
        server.handle_command(id, Command::Identify { data: b"{}".to_vec() }),
        Reply::Response(_)
    ));
    assert!(matches!(
        server.handle_command(id, Command::Pub { topic: "t".to_string(), body: b"x".to_vec() }),
        Reply::Done
    ));
    assert!(server.get_topic("t").unwrap().created_at() > 1_600_000_000_000);
    server.tick();
}

#[test]
fn identify_negotiates_within_the_limits() {
    let mut server = broker();
    let id = connect(&mut server);
    let data = b"{\"heartbeat_interval\":5000,\"msg_timeout\":10000000,\"output_buffer_size\":99999999,\"sample_rate\":150,\"deflate\":true,\"snappy\":true,\"hostname\":\"box\",\"user_agent\":\"ua/1\"}".to_vec();
    let reply = server.handle_command_at(id, Command::Identify { data }, 0);
    let body = match reply {
        Reply::Response(body) => body,
        _ => panic!("expected a response"),
    };
    let text = String::from_utf8(body).unwrap();
    assert_eq!(
        text,
        "{\"max_rdy_count\":2500,\"msg_timeout\":900000,\"max_msg_timeout\":900000,\"heartbeat_interval\":5000,\"output_buffer_size\":16384,\"output_buffer_timeout\":250,\"sample_rate\":99,\"deflate\":true,\"snappy\":false}"
    );
    let client = server.get_client(id).unwrap();
    assert_eq!(client.state(), ClientState::Identified);
    assert_eq!(client.info().hostname, Some("box".to_string()));
    assert_eq!(client.info().user_agent, Some("ua/1".to_string()));
    assert_eq!(client.info().heartbeat_interval, 5000);
}

#[test]
fn identify_request_reads_json_fields() {
    let req = IdentifyRequest::from_json(b"{\"heartbeat_interval\":7,\"snappy\":true,\"hostname\":\"h\",\"msg_timeout\":\"text\"}");
    assert_eq!(req.heartbeat_interval, Some(7));
    assert_eq!(req.snappy, Some(true));
    assert_eq!(req.deflate, None);
    assert_eq!(req.hostname, Some("h".to_string()));
    assert_eq!(req.msg_timeout, None);
    assert_eq!(req.user_agent, None);
    let none = IdentifyRequest::from_json(b"not json");
    assert_eq!(none.heartbeat_interval, None);
    assert_eq!(none.hostname, None);
}

#[test]
fn negotiation_rules() {
    assert_eq!(bound(None, 5, 10), 5);
    assert_eq!(bound(Some(7), 5, 10), 7);
    assert_eq!(bound(Some(10), 5, 10), 10);
    assert_eq!(bound(Some(11), 5, 10), 10);
    let grants = Grants {
        msg_timeout: 60_000,
        max_msg_timeout: 900_000,
        max_rdy_count: 2500,
        max_output_buffer_size: 16384,
        max_output_buffer_timeout: 250,
    };
    let info = negotiate(ClientInfo::default(), IdentifyRequest::empty(), grants);
    assert_eq!(info.msg_timeout, 60_000);
    assert_eq!(info.heartbeat_interval, 30_000);
    assert!(!info.deflate && !info.snappy);
    let mut req = IdentifyRequest::empty();
    req.snappy = Some(true);
    req.heartbeat_interval = Some(100_000);
    req.msg_timeout = Some(1);
    let info = negotiate(ClientInfo::default(), req, grants);
    assert!(info.snappy && !info.deflate);
    assert_eq!(info.heartbeat_interval, 60_000);
    assert_eq!(info.msg_timeout, 1);
    let text = String::from_utf8(identify_response(&info)).unwrap();
    assert!(text.starts_with("{\"max_rdy_count\":2500,\"msg_timeout\":1,"));
    assert!(text.ends_with("\"deflate\":false,\"snappy\":true}"));
}

#[test]
fn heartbeats() {
    let mut info = ClientInfo::default();
    info.heartbeat_interval = 1000;
    let mut client = Client::new_at(info, 0);
    assert_eq!(client.heartbeat_at(999), HeartbeatAction::Wait);
    assert_eq!(client.heartbeat_at(1000), HeartbeatAction::Send);
    assert_eq!(client.heartbeat_at(1500), HeartbeatAction::Wait);
    client.note_command_received();
    assert_eq!(client.heartbeat_at(2000), HeartbeatAction::Send);
    assert_eq!(client.heartbeat_at(3000), HeartbeatAction::Send);
    assert_eq!(client.heartbeat_at(4000), HeartbeatAction::Close);
    assert!(client.is_closed());
    assert_eq!(client.heartbeat_at(9000), HeartbeatAction::Wait);

    let mut quiet = ClientInfo::default();
    quiet.heartbeat_interval = 0;
    let mut client = Client::new_at(quiet, 0);
    assert_eq!(client.heartbeat_at(u64::MAX), HeartbeatAction::Wait);

    let mut client = Client::new_at(ClientInfo::default(), 0);
    client.note_frame_sent(10, 29_000);
    assert_eq!(client.heartbeat_at(30_000), HeartbeatAction::Wait);
    assert_eq!(client.heartbeat_at(59_000), HeartbeatAction::Send);
    assert_eq!(client.stats().bytes_sent, 10);
}

#[test]
fn missed_heartbeats_close_the_client_and_requeue() {
    let mut server = broker();
    server.publish("t", b"m".to_vec()).unwrap();
    let id = server.add_client_at(ClientInfo::default(), 0);
    server.handle_command_at(id, Command::Identify { data: b"{}".to_vec() }, 0);
    let sub = Command::Sub { topic: "t".to_string(), channel: "c".to_string() };
    server.handle_command_at(id, sub, 0);
    server.handle_command_at(id, Command::Rdy { count: 1 }, 0);
    server.deliver_at("t", "c", 1).unwrap();
    let interval = server.get_client(id).unwrap().info().heartbeat_interval;
    assert_eq!(interval, 30_000);
    assert_eq!(server.check_heartbeat_at(id, interval - 1), HeartbeatAction::Wait);
    let mut now = 0;
    let mut actions = Vec::new();
    for _ in 0..4 {
        now += interval;
        actions.push(server.check_heartbeat_at(id, now));
    }
    assert_eq!(actions[0], HeartbeatAction::Send);
    assert_eq!(actions[1], HeartbeatAction::Send);
    assert_eq!(actions[2], HeartbeatAction::Close);
    assert_eq!(actions[3], HeartbeatAction::Wait);
    assert!(server.get_client(id).is_none());
    let channel = &get_topic_stats(&server)[0].channels[0];
    assert_eq!((channel.depth, channel.in_flight_count), (1, 0));
}

#[test]
fn client_record() {
    let mut client = Client::new(ClientInfo::default());
    assert_eq!(client.state(), ClientState::Initial);
    assert!(!client.is_ready());
    assert!(!client.is_timed_out_at(u64::MAX));
    assert!(client.advance(ClientEvent::Identify));
    assert!(!client.advance(ClientEvent::Identify));
    client.set_topic("t".to_string());
    client.set_channel("c".to_string());
    client.set_state(ClientState::Ready);
    assert!(client.set_rdy_count(2));
    assert!(client.is_ready());
    assert!(client.set_rdy_count(2500));
    assert!(!client.set_rdy_count(2501));
    assert_eq!(client.rdy_count(), 2500);
    client.spend_credit();
    assert_eq!(client.rdy_count(), 2499);
    assert!(client.set_rdy_count(0));
    client.spend_credit();
    assert_eq!(client.rdy_count(), 0);
    assert!(client.set_rdy_count(2));
    let m = Message::with_metadata(MessageId { hi: 1, lo: 1 }, 0, 0, b"abc".to_vec());
    client.add_in_flight_at(&m, 1000);
    client.add_in_flight_at(&m, 1001);
    assert_eq!(client.in_flight_count(), 1);
    assert_eq!(client.stats().messages_received, 2);
    assert_eq!(client.stats().bytes_received, 58);
    assert!(!client.is_timed_out_at(61_001));
    assert!(client.is_timed_out_at(61_002));
    assert!(!client.remove_in_flight(MessageId { hi: 9, lo: 9 }));
    assert!(client.remove_in_flight(m.id));
    assert_eq!(client.in_flight_count(), 0);
    assert_eq!(client.stats().messages_finished, 1);
    client.add_in_flight(&m);
    assert!(!client.is_timed_out());
    client.close();
    assert!(client.is_closed());
}

#[test]
fn overall_stats_add_up() {
    let mut server = broker();
    let a = subscribe(&mut server, "t1", "c1", 0);
    let _b = subscribe(&mut server, "t2", "c1", 0);
    let _c = subscribe(&mut server, "t2", "c2", 0);
    server.handle_command_at(a, Command::Rdy { count: 1 }, 0);
    server.publish("t1", b"a".to_vec()).unwrap();
    server.publish("t2", b"b".to_vec()).unwrap();
    server.publish("t2", b"c".to_vec()).unwrap();
    server.deliver_at("t1", "c1", 1).unwrap();
    let info = ServerInfo {
        version: "1.0.0".to_string(),
        build_version: "1.0.0".to_string(),
        start_time: 5000,
        uptime: 0,
        tcp_port: 4150,
        http_port: 4151,
        https_port: None,
        data_path: String::new(),
        mem_queue_size: 10000,
        max_msg_size: 1,
        max_body_size: 1,
        max_req_timeout: 1,
        max_msg_timeout: 1,
        msg_timeout: 1,
        max_output_buffer_size: 1,
        max_output_buffer_timeout: 1,
        disable_http: false,
        disable_https: true,
    };
    let collector = StatsCollector::new(info, 5000);
    let stats = collector.get_stats_at(&server, 3_725_000 + 5000);
    assert_eq!(stats.server.uptime, 3725);
    assert_eq!(collector.uptime_at(0), 0);
    assert_eq!(stats.overall.topic_count, 2);
    assert_eq!(stats.overall.channel_count, 3);
    assert_eq!(stats.overall.client_count, 3);
    assert_eq!(stats.overall.message_count, 3);
    assert_eq!(stats.overall.total_depth, 0);
    assert_eq!(stats.overall.total_in_flight_count, 1);
    assert_eq!(stats.overall.total_commands_received, 7);
    assert_eq!(stats.overall, get_overall_stats(&stats.topics, &stats.clients));
    assert_eq!(stats.clients[0].state, "Ready");
    assert_eq!(stats.clients[0].rdy_count, 0);
    assert_eq!(stats.clients[0].in_flight_count, 1);
    assert_eq!(stats.clients[1].state, "Subscribed");
    assert_eq!(stats.clients[1].topic, Some("t2".to_string()));
    assert_eq!(stats.topics[1].channels.len(), 2);
    assert_eq!(format_uptime(3725), "1h 2m 5s");
    assert_eq!(format_uptime(0), "0h 0m 0s");
    assert_eq!(state_name(ClientState::Closed), "Closed");
    assert_eq!(state_name(ClientState::Initial), "Initial");
}

#[test]
fn disk_records_leave_and_come_back_through_the_broker() {
    let mut config = NsqdConfig::default();
    config.mem_queue_size = 1;
    let mut server = NsqdServer::new(config).unwrap();
    server.create_channel("t", "c").unwrap();
    server.publish("t", b"1".to_vec()).unwrap();
    server.publish("t", b"2".to_vec()).unwrap();
    assert!(server.take_channel_disk_writes("t", "missing").is_empty());
    assert!(server.take_channel_disk_writes("missing", "c").is_empty());
    let writes = server.take_channel_disk_writes("t", "c");
    assert_eq!(writes.len(), 1);
    assert_eq!(&writes[0].record[..4], &[0u8, 0, 0, 27][..]);
    assert_eq!(&writes[0].record[writes[0].record.len() - 1..], b"2");
    assert!(server.take_channel_disk_writes("t", "c").is_empty());

    let segment = writes[0].record.clone();
    assert!(matches!(server.read_channel_disk("t", "missing", &segment), Err(NsqError::Validation(_))));
    assert!(matches!(server.read_channel_disk("missing", "c", &segment), Err(NsqError::Validation(_))));
    assert_eq!(server.read_channel_disk("t", "c", &segment).unwrap(), true);
    let stats = &get_topic_stats(&server)[0];
    assert_eq!((stats.channels[0].depth, stats.channels[0].backend_depth), (2, 0));
    assert_eq!(server.read_channel_disk("t", "c", &segment).unwrap(), false);
}

#[test]
fn frames_sent_are_counted() {
    let mut server = broker();
    let id = connect(&mut server);
    server.note_frame_sent(id, 30, 5);
    server.note_frame_sent(id, 12, 9);
    server.note_frame_sent(ClientId { hi: 0, lo: 0 }, 99, 9);
    let stats = server.get_client(id).unwrap().stats();
    assert_eq!((stats.commands_sent, stats.bytes_sent), (2, 42));
}

fn told(version: &str, start_time: u64) -> ServerInfo {
    ServerInfo {
        version: version.to_string(),
        build_version: version.to_string(),
        start_time,
        uptime: 0,
        tcp_port: 4150,
        http_port: 4151,
        https_port: None,
        data_path: String::new(),
        mem_queue_size: 10000,
        max_msg_size: 1024,
        max_body_size: 4096,
        max_req_timeout: 60000,
        max_msg_timeout: 900000,
        msg_timeout: 60000,
        max_output_buffer_size: 65536,
        max_output_buffer_timeout: 1000,
        disable_http: false,
        disable_https: true,
    }
}

#[test]
fn collector_reports_what_it_was_told() {
    let server = broker();
    let mut collector = StatsCollector::new(told("1.0.0", 2_000), 2_000);
    let first = collector.get_stats_at(&server, 9_999);
    assert_eq!(first.server.version, "1.0.0");
    assert_eq!(first.server.uptime, 7);
    assert_eq!(first.server.max_body_size, 4096);
    collector.update_server_info(told("1.0.1", 2_000));
    let second = collector.get_stats_at(&server, 1_000);
    assert_eq!(second.server.version, "1.0.1");
    assert_eq!(second.server.uptime, 0);
    assert_eq!(collector.uptime_at(62_000), 60);
    assert!(second.topics.is_empty() && second.clients.is_empty());
    let current = collector.get_stats(&server);
    assert_eq!(current.server.version, "1.0.1");
    assert!(current.server.uptime > 1_600_000_000);
    assert_eq!(current.overall.topic_count, 0);
}

#[test]
fn reports_on_one_topic_channel_and_client() {
    let mut server = broker();
    let id = subscribe(&mut server, "t", "c", 0);
    server.handle_command_at(id, Command::Rdy { count: 2 }, 0);
    server.publish("t", b"a".to_vec()).unwrap();
    server.publish("t", b"b".to_vec()).unwrap();
    server.deliver_at("t", "c", 1).unwrap();
    let topic = server.get_topic("t").unwrap();
    let report = topic_report(topic);
    assert_eq!(report.name, "t");
    assert_eq!((report.message_count, report.channel_count), (2, 1));
    assert_eq!((report.depth, report.in_flight_count), (0, 1));
    let channel = channel_report(topic.get_channel("c").unwrap(), topic.is_paused());
    assert!(!channel.paused);
    assert!(channel_report(topic.get_channel("c").unwrap(), true).paused);
    assert_eq!((channel.name.as_str(), channel.topic_name.as_str()), ("c", "t"));
    assert_eq!((channel.depth, channel.in_flight_count, channel.client_count), (1, 1, 1));
    let client = client_report(server.get_client(id).unwrap());
    assert_eq!(client.id, id);
    assert_eq!((client.state.as_str(), client.rdy_count, client.in_flight_count), ("Ready", 1, 1));
    let all = get_client_stats(&server);
    assert_eq!(all.len(), 1);
    assert_eq!(all[0].channel, Some("c".to_string()));
    assert_eq!(server.topic_index("t"), Some(0));
    assert_eq!(server.topic_index("u"), None);
    assert_eq!(server.client_index(id), Some(0));
}

#[test]
fn a_refused_publish_makes_no_topic_but_a_full_one_does() {
    let mut config = memory_only();
    config.max_msg_size = 4;
    config.mem_queue_size = 0;
    let mut server = NsqdServer::new(config).unwrap();
    assert!(matches!(server.publish("big", b"12345".to_vec()), Err(NsqError::Validation(_))));
    assert!(server.get_topic("big").is_none());
    assert!(matches!(server.publish("bad name", b"1".to_vec()), Err(NsqError::Validation(_))));
    assert!(server.topics().is_empty());
    assert!(matches!(server.publish("full", b"1234".to_vec()), Err(NsqError::Queue(_))));
    let topic = server.get_topic("full").unwrap();
    assert_eq!((topic.message_count(), topic.depth()), (0, 0));

    let id = connect(&mut server);
    server.handle_command_at(id, Command::Identify { data: b"{}".to_vec() }, 0);
    let big = Command::Pub { topic: "big".to_string(), body: b"12345".to_vec() };
    assert!(is_error(&server.handle_command_at(id, big, 0), ErrorCode::BadMessage));
    assert!(server.get_topic("big").is_none());
    let stranger = connect(&mut server);
    let early = Command::Pub { topic: "early".to_string(), body: b"1".to_vec() };
    assert!(is_error(&server.handle_command_at(stranger, early, 0), ErrorCode::Invalid));
    assert!(server.get_topic("early").is_none());
}

#[test]
fn new_clients_start_from_nothing() {
    let mut server = broker();
    let mut info = ClientInfo::default();
    info.remote_addr = "10.1.1.1:999".to_string();
    let id = server.add_client_at(info, 4_000);
    let client = server.get_client(id).unwrap();
    assert_eq!(client.state(), ClientState::Initial);
    assert_eq!(client.info().remote_addr, "10.1.1.1:999");
    assert_eq!((client.rdy_count(), client.in_flight_count()), (0, 0));
    assert_eq!((client.topic(), client.channel()), (None, None));
    assert_eq!(client.stats().commands_received, 0);
    assert_eq!(server.clients().len(), 1);
    assert_eq!(server.check_heartbeat_at(id, 4_000), HeartbeatAction::Wait);
}

#[test]
fn channels_come_back_from_disk() {
    let mut first = NsqdServer::new({
        let mut config = NsqdConfig::default();
        config.mem_queue_size = 0;
        config
    })
    .unwrap();
    first.create_channel("t", "c").unwrap();
    first.publish("t", b"one".to_vec()).unwrap();
    first.publish("t", b"two".to_vec()).unwrap();
    let mut segment: Vec<u8> = Vec::new();
    for write in first.take_channel_disk_writes("t", "c") {
        assert_eq!((write.file_num, write.offset), (0, segment.len() as u64));
        segment.extend_from_slice(&write.record);
    }

    let mut second = NsqdServer::new(NsqdConfig::default()).unwrap();
    let found = vec![Segment { file_num: 0, scan: scan_segment(&segment) }];
    let disk = DiskQueue::recover(1 << 20, usize::MAX, &found);
    assert_eq!(disk.depth(), 2);
    second.restore_channel_at("t", "c", disk, 50).unwrap();
    let stats = &get_topic_stats(&second)[0];
    assert_eq!((stats.message_count, stats.channel_count), (2, 1));
    assert_eq!((stats.channels[0].depth, stats.channels[0].backend_depth), (0, 2));
    assert_eq!(stats.channels[0].message_count, 2);

    assert_eq!(second.read_channel_disk("t", "c", &segment).unwrap(), true);
    assert_eq!(second.read_channel_disk("t", "c", &segment).unwrap(), true);
    assert_eq!(second.read_channel_disk("t", "c", &segment).unwrap(), false);
    let id = subscribe(&mut second, "t", "c", 60);
    second.handle_command_at(id, Command::Rdy { count: 2 }, 60);
    assert_eq!(second.deliver_at("t", "c", 61).unwrap().message.body, b"one".to_vec());
    assert_eq!(second.deliver_at("t", "c", 61).unwrap().message.body, b"two".to_vec());

    let again = DiskQueue::recover(1 << 20, usize::MAX, &found);
    assert!(matches!(second.restore_channel_at("t", "c", again, 70), Err(NsqError::Validation(_))));
    let other = DiskQueue::recover(1 << 20, usize::MAX, &found);
    assert!(matches!(second.restore_channel_at("t", "no good", other, 70), Err(NsqError::Validation(_))));
    let third = DiskQueue::recover(1 << 20, usize::MAX, &found);
    second.restore_channel_at("t", "d", third, 70).unwrap();
    assert_eq!(get_topic_stats(&second)[0].message_count, 2);

    let mut waiting = NsqdServer::new(NsqdConfig::default()).unwrap();
    waiting.publish("u", b"kept for the first channel".to_vec()).unwrap();
    let late = DiskQueue::recover(1 << 20, usize::MAX, &found);
    assert!(matches!(waiting.restore_channel_at("u", "c", late, 70), Err(NsqError::Validation(_))));
    assert_eq!(get_topic_stats(&waiting)[0].channel_count, 0);
}

#[test]
fn batches_are_published_whole() {
    let mut config = memory_only();
    config.max_msg_size = 3;
    config.max_body_size = 5;
    let mut server = NsqdServer::new(config).unwrap();
    server.create_channel("t", "a").unwrap();
    server.create_channel("t", "b").unwrap();
    server.publish_batch("t", vec![b"ab".to_vec(), b"cde".to_vec()]).unwrap();
    let stats = &get_topic_stats(&server)[0];
    assert_eq!(stats.message_count, 2);
    assert_eq!((stats.channels[0].depth, stats.channels[1].depth), (2, 2));
    let a = subscribe(&mut server, "t", "a", 0);
    let b = subscribe(&mut server, "t", "b", 0);
    server.handle_command_at(a, Command::Rdy { count: 1 }, 0);
    server.handle_command_at(b, Command::Rdy { count: 1 }, 0);
    let first = server.deliver_at("t", "a", 1).unwrap().message;
    let copy = server.deliver_at("t", "b", 1).unwrap().message;
    assert_eq!((first.body.clone(), copy.body.clone()), (b"ab".to_vec(), b"ab".to_vec()));
    assert_ne!(first.id, copy.id);

    let over = server.publish_batch("t", vec![b"ab".to_vec(), b"cdef".to_vec()]);
    assert!(matches!(over, Err(NsqError::Validation(_))));
    let heavy = server.publish_batch("t", vec![b"abc".to_vec(), b"abc".to_vec()]);
    assert!(matches!(heavy, Err(NsqError::Validation(_))));
    assert!(matches!(server.publish_batch("no good", vec![b"a".to_vec()]), Err(NsqError::Validation(_))));
    assert_eq!(get_topic_stats(&server)[0].message_count, 2);
    server.publish_batch("t", Vec::new()).unwrap();
    assert_eq!(get_topic_stats(&server)[0].message_count, 2);
}

#[test]
fn a_broker_gives_up_what_its_disk_refused() {
    let mut config = NsqdConfig::default();
    config.mem_queue_size = 0;
    let mut server = NsqdServer::new(config).unwrap();
    server.create_channel("t", "c").unwrap();
    server.publish("t", b"1".to_vec()).unwrap();
    server.publish("t", b"2".to_vec()).unwrap();
    let writes = server.take_channel_disk_writes("t", "c");
    assert_eq!(writes.len(), 2);
    assert!(!server.give_up_channel_disk_writes("t", "missing", 0, 0, 1));
    assert!(!server.give_up_channel_disk_writes("missing", "c", 0, 0, 1));
    assert!(!server.give_up_channel_disk_writes("t", "c", 0, 0, 3));
    assert!(server.give_up_channel_disk_writes("t", "c", writes[1].file_num, writes[1].offset, 1));
    let stats = &get_topic_stats(&server)[0];
    assert_eq!((stats.message_count, stats.channels[0].backend_depth), (2, 1));
    assert_eq!(server.read_channel_disk("t", "c", &writes[0].record).unwrap(), true);
    assert_eq!(server.read_channel_disk("t", "c", &writes[0].record).unwrap(), false);
}

#[test]
fn a_backlog_comes_back_from_disk_and_goes_to_the_first_channel() {
    let mut config = NsqdConfig::default();
    config.mem_queue_size = 0;
    let mut first = NsqdServer::new(config).unwrap();
    first.publish("t", b"one".to_vec()).unwrap();
    assert!(first.take_topic_disk_writes("missing").is_empty());
    let writes = first.take_topic_disk_writes("t");
    assert_eq!(writes.len(), 1);
    assert!(!first.give_up_topic_disk_writes("missing", 0, 0, 1));
    assert!(!first.give_up_topic_disk_writes("t", 0, 0, 2));

    let mut second = NsqdServer::new(NsqdConfig::default()).unwrap();
    let found = vec![Segment { file_num: 0, scan: scan_segment(&writes[0].record) }];
    let disk = DiskQueue::recover(1 << 20, usize::MAX, &found);
    second.restore_topic_at("t", disk, 10).unwrap();
    let again = DiskQueue::recover(1 << 20, usize::MAX, &found);
    assert!(matches!(second.restore_topic_at("t", again, 10), Err(NsqError::Validation(_))));
    let bad = DiskQueue::recover(1 << 20, usize::MAX, &found);
    assert!(matches!(second.restore_topic_at("no good", bad, 10), Err(NsqError::Validation(_))));
    let stats = &get_topic_stats(&second)[0];
    assert_eq!((stats.message_count, stats.backend_depth, stats.channel_count), (1, 1, 0));

    let id = subscribe(&mut second, "t", "c", 20);
    second.handle_command_at(id, Command::Rdy { count: 1 }, 20);
    let stats = &get_topic_stats(&second)[0];
    assert_eq!((stats.channels[0].depth, stats.channels[0].backend_depth), (0, 1));
    assert_eq!(second.read_channel_disk("t", "c", &writes[0].record).unwrap(), true);
    assert_eq!(second.deliver_at("t", "c", 21).unwrap().message.body, b"one".to_vec());
}

#[test]
fn every_copy_after_the_first_gets_an_identifier_of_its_own() {
    let mut server = broker();
    for channel in ["a", "b", "c"] {
        server.create_channel("t", channel).unwrap();
    }
    let publisher = connect(&mut server);
    server.handle_command_at(publisher, Command::Identify { data: b"{}".to_vec() }, 0);
    let reply = server.handle_command_at(
        publisher,
        Command::Pub { topic: "t".to_string(), body: b"x".to_vec() },
        0,
    );
    assert!(matches!(reply, Reply::Done));
    let mut seen: Vec<MessageId> = Vec::new();
    for channel in ["a", "b", "c"] {
        let id = subscribe(&mut server, "t", channel, 1);
        server.handle_command_at(id, Command::Rdy { count: 1 }, 1);
        let message = server.deliver_at("t", channel, 2).unwrap().message;
        assert_eq!(message.body, b"x".to_vec());
        assert!(!seen.contains(&message.id));
        seen.push(message.id);
    }
    assert_eq!(seen.len(), 3);
}

#[test]
fn the_channels_of_a_paused_topic_are_reported_as_paused() {
    let mut server = broker();
    server.create_channel("t", "a").unwrap();
    server.create_channel("t", "b").unwrap();
    server.apply("t", "b", ChannelOp::Pause, 0).unwrap();
    let before = &get_topic_stats(&server)[0];
    assert_eq!((before.paused, before.channels[0].paused, before.channels[1].paused), (false, false, true));
    server.pause_topic("t").unwrap();
    let paused = &get_topic_stats(&server)[0];
    assert_eq!((paused.paused, paused.channels[0].paused, paused.channels[1].paused), (true, true, true));
    server.unpause_topic("t").unwrap();
    let after = &get_topic_stats(&server)[0];
    assert_eq!((after.paused, after.channels[0].paused, after.channels[1].paused), (false, false, true));
}
