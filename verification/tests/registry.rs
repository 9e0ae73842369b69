use nsq::admin::{
    unique_producers,
    aggregate_topic_stats, command_path, get_all_nsqd_addresses, get_topic_detail,
    normalize_address, send_to_all_result, ChannelInfo, NodeStats, TopicInfo,
};
use nsq::errors::NsqError;
use nsq::registry::{PeerInfo, Producer, RegistrationDB, RegistryReply};

fn producer(address: &str, tcp_port: u16, now: u64) -> Producer {
    Producer::new_at(
        format!("{}:12345", address),
        "test-host".to_string(),
        address.to_string(),
        tcp_port,
        tcp_port + 1,
        "1.0.0".to_string(),
        now,
    )
}

const LIFETIME: u64 = 45_000;
const TIMEOUT: u64 = 300_000;

#[test]
fn test_producer_registration() {
    let mut db = RegistrationDB::new();
    let producer = Producer::new(
        "127.0.0.1:12345".to_string(),
        "test-host".to_string(),
        "127.0.0.1".to_string(),
        4150,
        4151,
        "1.0.0".to_string(),
    );

    db.register_producer("test-topic".to_string(), producer.clone());

    let producers = db.get_producers("test-topic");
    assert_eq!(producers.len(), 1);
    assert_eq!(producers[0].hostname, "test-host");
    assert_eq!(producers[0].tcp_port, 4150);
}

#[test]
fn test_producer_heartbeat() {
    let mut producer = Producer::new_at(
        "127.0.0.1:12345".to_string(),
        "test-host".to_string(),
        "127.0.0.1".to_string(),
        4150,
        4151,
        "1.0.0".to_string(),
        0,
    );

    let initial_update = producer.last_update;

    producer.update_heartbeat();

    assert!(producer.last_update > initial_update);
}

#[test]
fn test_producer_tombstone() {
    let mut producer = Producer::new(
        "127.0.0.1:12345".to_string(),
        "test-host".to_string(),
        "127.0.0.1".to_string(),
        4150,
        4151,
        "1.0.0".to_string(),
    );

    assert!(!producer.tombstoned);
    assert!(producer.tombstoned_at.is_none());
    assert!(producer.is_healthy());

    producer.tombstone();

    assert!(producer.tombstoned);
    assert!(producer.tombstoned_at.is_some());
    assert!(!producer.is_healthy());
}

#[test]
fn test_channel_management() {
    let mut db = RegistrationDB::new();

    db.add_channel("test-topic", "channel1");
    db.add_channel("test-topic", "channel2");
    db.add_channel("test-topic", "channel1");

    let channels = db.get_channels("test-topic");
    assert_eq!(channels.len(), 2);
    assert!(channels.contains(&"channel1".to_string()));
    assert!(channels.contains(&"channel2".to_string()));

    db.remove_channel("test-topic", "channel1");
    let channels = db.get_channels("test-topic");
    assert_eq!(channels.len(), 1);
    assert_eq!(channels[0], "channel2");
}

#[test]
fn test_producer_id_generation() {
    let producer = Producer::new(
        "127.0.0.1:12345".to_string(),
        "test-host".to_string(),
        "127.0.0.1".to_string(),
        4150,
        4151,
        "1.0.0".to_string(),
    );

    assert_eq!(producer.get_id(), "127.0.0.1:4150");
    assert_eq!(producer.get_http_url(), "http://127.0.0.1:4151");
    assert_eq!(producer.get_tcp_address(), "127.0.0.1:4150");
}

#[test]
fn producer_staleness() {
    let p = producer("10.0.0.1", 4150, 1000);
    assert!(!p.is_stale_at(500, 1000));
    assert!(!p.is_stale_at(500, 1500));
    assert!(p.is_stale_at(500, 1501));
    assert!(!p.is_stale_at(500, 0));
    assert!(!Producer::new(String::new(), String::new(), "h".to_string(), 1, 2, String::new())
        .is_stale(60_000));
    let mut q = producer("10.0.0.1", 0, 0);
    q.update_heartbeat_at(77);
    q.tombstone_at(88);
    assert_eq!((q.last_update, q.tombstoned_at), (77, Some(88)));
    assert_eq!(q.get_id(), "10.0.0.1:0");
    assert_eq!(producer("h", 65534, 0).get_http_url(), "http://h:65535");
}

#[test]
fn discovery_round_trip() {
    let mut db = RegistrationDB::new();
    db.register_producer("t3".to_string(), producer("10.0.0.1", 4150, 1000));
    db.add_channel("t3", "c");
    let found = db.lookup_at("t3", LIFETIME, TIMEOUT, 2000);
    assert_eq!(found.producers.len(), 1);
    assert_eq!(found.producers[0].get_id(), "10.0.0.1:4150");
    assert_eq!(found.channels, vec!["c".to_string()]);

    db.tombstone_producer_at("t3", "10.0.0.1:4150", 3000);
    assert!(db.lookup_at("t3", LIFETIME, TIMEOUT, 3000).producers.is_empty());
    db.update_producer_heartbeat_at("10.0.0.1:4150", 20_000);
    assert!(db.lookup_at("t3", LIFETIME, TIMEOUT, 20_000).producers.is_empty());
    assert!(db.lookup_at("t3", LIFETIME, TIMEOUT, 47_999).producers.is_empty());
    let back = db.lookup_at("t3", LIFETIME, TIMEOUT, 48_000);
    assert_eq!(back.producers.len(), 1);
    assert_eq!(back.producers[0].last_update, 20_000);
    assert!(back.producers[0].tombstoned);
    assert!(db.is_tombstoned_at("t3", "10.0.0.1:4150", LIFETIME, 47_999));
    assert!(!db.is_tombstoned_at("t3", "10.0.0.1:4150", LIFETIME, 48_000));
    assert!(!db.is_tombstoned_at("other", "10.0.0.1:4150", LIFETIME, 3000));
}

#[test]
fn tombstone_is_per_topic_and_per_producer() {
    let mut db = RegistrationDB::new();
    db.register_producer("a".to_string(), producer("10.0.0.1", 4150, 0));
    db.register_producer("b".to_string(), producer("10.0.0.1", 4150, 0));
    db.register_producer("a".to_string(), producer("10.0.0.2", 4150, 0));
    db.tombstone_producer_at("a", "10.0.0.1:4150", 10);
    let a = db.lookup_at("a", LIFETIME, TIMEOUT, 20);
    assert_eq!(a.producers.len(), 1);
    assert_eq!(a.producers[0].get_id(), "10.0.0.2:4150");
    assert_eq!(db.lookup_at("b", LIFETIME, TIMEOUT, 20).producers.len(), 1);
    assert_eq!(db.get_producers("a").len(), 2);
    db.tombstone_producer_at("a", "10.0.0.1:4150", 40_000);
    assert_eq!(db.lookup_at("a", LIFETIME, TIMEOUT, 60_000).producers.len(), 1);
    db.cleanup_expired_tombstones_at(LIFETIME, 10_000_000);
    assert_eq!(db.lookup_at("a", LIFETIME, TIMEOUT, 60_000).producers.len(), 2);
}

#[test]
fn silent_producers_drop_out_of_lookups_and_are_removed() {
    let mut db = RegistrationDB::new();
    db.register_producer("t".to_string(), producer("10.0.0.1", 4150, 0));
    db.register_producer("t".to_string(), producer("10.0.0.2", 4150, 200_000));
    assert_eq!(db.lookup_at("t", LIFETIME, TIMEOUT, 300_000).producers.len(), 2);
    let later = db.lookup_at("t", LIFETIME, TIMEOUT, 300_001);
    assert_eq!(later.producers.len(), 1);
    assert_eq!(later.producers[0].broadcast_address, "10.0.0.2");
    assert_eq!(db.get_all_producers().len(), 2);
    db.cleanup_stale_producers_at(TIMEOUT, 300_001);
    assert_eq!(db.get_all_producers().len(), 1);
    assert_eq!(db.get_producers("t").len(), 1);
    db.cleanup_stale_producers_at(TIMEOUT, 500_000);
    assert_eq!(db.get_all_producers().len(), 1);
    db.cleanup_stale_producers_at(TIMEOUT, 500_001);
    assert!(db.get_all_producers().is_empty());
    assert!(db.lookup_at("t", LIFETIME, TIMEOUT, 500_001).producers.is_empty());
    assert_eq!(db.get_all_topics(), vec!["t".to_string()]);
}

#[test]
fn registrations() {
    let mut db = RegistrationDB::new();
    db.register_producer("a".to_string(), producer("h", 1, 0));
    db.register_producer("a".to_string(), producer("h", 1, 50));
    db.register_producer("b".to_string(), producer("h", 1, 60));
    assert_eq!(db.get_all_producers().len(), 1);
    assert_eq!(db.get_producers("a")[0].last_update, 60);
    assert_eq!(db.get_all_topics(), vec!["a".to_string(), "b".to_string()]);
    db.unregister_producer("a", "h:1");
    assert!(db.get_producers("a").is_empty());
    assert_eq!(db.get_producers("b").len(), 1);
    db.unregister_producer("b", "nobody:1");
    assert_eq!(db.get_producers("b").len(), 1);
    db.create_topic("c");
    db.create_topic("c");
    assert_eq!(db.get_all_topics().len(), 3);
    db.delete_topic("a");
    assert_eq!(db.get_all_topics(), vec!["b".to_string(), "c".to_string()]);
    assert!(db.get_channels("missing").is_empty());
    db.remove_channel("missing", "c");
    db.update_producer_heartbeat("h:1");
    assert!(db.get_all_producers()[0].last_update > 1_600_000_000_000);
    db.tombstone_producer("b", "h:1");
    assert!(db.lookup("b", LIFETIME, TIMEOUT).producers.is_empty());
    db.cleanup_stale_producers(TIMEOUT);
    db.cleanup_expired_tombstones(LIFETIME);
    assert_eq!(db.get_all_producers().len(), 1);
}

fn peer() -> Option<PeerInfo> {
    Some(PeerInfo {
        remote_address: "10.1.1.1:55555".to_string(),
        hostname: "broker-1".to_string(),
        broadcast_address: "10.1.1.1".to_string(),
        tcp_port: 4150,
        http_port: 4151,
        version: "1.0.0".to_string(),
    })
}

#[test]
fn registration_protocol() {
    let mut db = RegistrationDB::new();
    let me = peer();
    assert_eq!(db.handle_tcp_command_at("IDENTIFY", &me, 10), RegistryReply::Done);
    assert_eq!(db.get_all_producers().len(), 1);
    assert_eq!(db.get_all_producers()[0].hostname, "broker-1");
    assert_eq!(db.handle_tcp_command_at("REGISTER t1 c1", &me, 20), RegistryReply::Done);
    assert_eq!(db.handle_tcp_command_at("  REGISTER   t1 \t c2  ", &me, 21), RegistryReply::Done);
    assert_eq!(db.handle_tcp_command_at("REGISTER t2", &me, 22), RegistryReply::Done);
    assert_eq!(db.get_channels("t1"), vec!["c1".to_string(), "c2".to_string()]);
    assert!(db.get_channels("t2").is_empty());
    assert_eq!(db.lookup_at("t1", LIFETIME, TIMEOUT, 30).producers.len(), 1);
    assert_eq!(db.lookup_at("t2", LIFETIME, TIMEOUT, 30).producers.len(), 1);
    assert_eq!(db.get_all_producers().len(), 1);

    assert_eq!(db.handle_tcp_command_at("PING", &me, 500), RegistryReply::Done);
    assert_eq!(db.get_all_producers()[0].last_update, 500);
    assert_eq!(db.handle_tcp_command_at("UNREGISTER t1 c1", &me, 600), RegistryReply::Done);
    assert_eq!(db.get_channels("t1"), vec!["c2".to_string()]);
    assert_eq!(db.get_producers("t1").len(), 1);
    assert_eq!(db.handle_tcp_command_at("UNREGISTER t1", &me, 601), RegistryReply::Done);
    assert!(db.get_producers("t1").is_empty());
    assert_eq!(db.handle_tcp_command_at("QUIT", &me, 700), RegistryReply::Done);
    assert_eq!(db.handle_tcp_command("PING", &me), RegistryReply::Done);
}

#[test]
fn registration_protocol_errors() {
    let mut db = RegistrationDB::new();
    let me = peer();
    let nobody: Option<PeerInfo> = None;
    assert_eq!(db.handle_tcp_command_at("", &me, 0), RegistryReply::Invalid);
    assert_eq!(db.handle_tcp_command_at("HELLO", &me, 0), RegistryReply::Invalid);
    assert_eq!(db.handle_tcp_command_at("register t", &me, 0), RegistryReply::Invalid);
    assert_eq!(db.handle_tcp_command_at("REGISTER", &me, 0), RegistryReply::Invalid);
    assert_eq!(db.handle_tcp_command_at("REGISTER a b c", &me, 0), RegistryReply::Invalid);
    assert_eq!(db.handle_tcp_command_at("REGISTER t c", &nobody, 0), RegistryReply::Invalid);
    assert_eq!(db.handle_tcp_command_at("IDENTIFY", &nobody, 0), RegistryReply::Invalid);
    assert_eq!(db.handle_tcp_command_at("IDENTIFY x", &me, 0), RegistryReply::Invalid);
    assert_eq!(db.handle_tcp_command_at("REGISTER bad/topic c", &me, 0), RegistryReply::BadTopic);
    assert_eq!(db.handle_tcp_command_at("REGISTER t bad/chan", &me, 0), RegistryReply::BadChannel);
    assert_eq!(
        db.handle_tcp_command_at(&format!("REGISTER {}", "x".repeat(65)), &me, 0),
        RegistryReply::BadTopic
    );
    assert_eq!(db.handle_tcp_command_at("UNREGISTER t c!", &me, 0), RegistryReply::BadChannel);
    assert_eq!(db.handle_tcp_command_at("PING", &nobody, 0), RegistryReply::Done);
    assert!(db.get_all_producers().is_empty());
    assert!(db.get_all_topics().is_empty());
    assert_eq!(RegistryReply::Done.as_str(), "OK\n");
    assert_eq!(RegistryReply::Invalid.as_str(), "E_INVALID\n");
    assert_eq!(RegistryReply::BadTopic.as_str(), "E_BAD_TOPIC\n");
    assert_eq!(RegistryReply::BadChannel.as_str(), "E_BAD_CHANNEL\n");
}

fn channel(name: &str, depth: u64, paused: bool) -> ChannelInfo {
    ChannelInfo {
        channel_name: name.to_string(),
        depth,
        backend_depth: 1,
        in_flight_count: 2,
        deferred_count: 3,
        message_count: 4,
        requeue_count: 5,
        timeout_count: 6,
        paused,
    }
}

fn topic(name: &str, message_count: u64, paused: bool, channels: Vec<ChannelInfo>) -> TopicInfo {
    TopicInfo {
        topic_name: name.to_string(),
        channels,
        depth: 10,
        backend_depth: 20,
        message_count,
        in_flight_count: 1,
        deferred_count: 2,
        requeue_count: 3,
        timeout_count: 4,
        paused,
        nodes: Vec::new(),
    }
}

#[test]
fn aggregated_stats() {
    let nodes = vec![
        NodeStats {
            url: "http://10.0.0.1:4151".to_string(),
            topics: vec![
                topic("t4", 3, false, vec![channel("c", 7, true), channel("d", 1, false)]),
                topic("only-here", 1, false, Vec::new()),
            ],
        },
        NodeStats {
            url: "http://10.0.0.2:4151".to_string(),
            topics: vec![topic("t4", 5, true, vec![channel("c", 8, false), channel("e", 2, false)])],
        },
    ];
    let merged = aggregate_topic_stats(&nodes);
    assert_eq!(merged.len(), 2);
    let t4 = &merged[0];
    assert_eq!(t4.topic_name, "t4");
    assert_eq!(t4.message_count, 8);
    assert_eq!(t4.depth, 20);
    assert_eq!(t4.backend_depth, 40);
    assert_eq!(t4.in_flight_count, 2);
    assert_eq!(t4.deferred_count, 4);
    assert_eq!(t4.requeue_count, 6);
    assert_eq!(t4.timeout_count, 8);
    assert!(t4.paused);
    assert_eq!(
        t4.nodes,
        vec!["http://10.0.0.1:4151".to_string(), "http://10.0.0.2:4151".to_string()]
    );
    let names: Vec<&str> = t4.channels.iter().map(|c| c.channel_name.as_str()).collect();
    assert_eq!(names, vec!["c", "d", "e"]);
    assert_eq!(t4.channels[0].depth, 15);
    assert_eq!(t4.channels[0].message_count, 8);
    assert_eq!(t4.channels[0].timeout_count, 12);
    assert!(t4.channels[0].paused);
    assert_eq!(t4.channels[1].depth, 1);
    assert!(!t4.channels[1].paused);
    assert_eq!(merged[1].topic_name, "only-here");
    assert_eq!(merged[1].nodes, vec!["http://10.0.0.1:4151".to_string()]);
    assert_eq!(get_topic_detail(&merged, "only-here").unwrap().message_count, 1);
    assert!(get_topic_detail(&merged, "nope").is_none());
    assert!(aggregate_topic_stats(&Vec::new()).is_empty());
}

#[test]
fn aggregated_counters_saturate() {
    let nodes = vec![
        NodeStats { url: "a".to_string(), topics: vec![topic("t", u64::MAX - 1, false, Vec::new())] },
        NodeStats { url: "b".to_string(), topics: vec![topic("t", 5, false, Vec::new())] },
    ];
    assert_eq!(aggregate_topic_stats(&nodes)[0].message_count, u64::MAX);
}

#[test]
fn broker_addresses() {
    assert_eq!(normalize_address("127.0.0.1:4151"), "http://127.0.0.1:4151");
    assert_eq!(normalize_address("http://h:1"), "http://h:1");
    assert_eq!(normalize_address("https://h:1"), "https://h:1");
    assert_eq!(normalize_address("httpx"), "http://httpx");
    assert_eq!(normalize_address(""), "http://");
    let configured = vec!["10.0.0.1:4151".to_string(), "http://10.0.0.9:4151".to_string()];
    let producers =
        vec![producer("10.0.0.1", 4150, 0), producer("10.0.0.2", 4150, 0), producer("10.0.0.2", 4150, 9)];
    assert_eq!(
        get_all_nsqd_addresses(&configured, &producers),
        vec![
            "http://10.0.0.1:4151".to_string(),
            "http://10.0.0.9:4151".to_string(),
            "http://10.0.0.2:4151".to_string(),
        ]
    );
    assert!(get_all_nsqd_addresses(&Vec::new(), &Vec::new()).is_empty());
}

#[test]
fn fan_out_fails_only_when_every_broker_fails() {
    assert!(send_to_all_result(&Vec::new()).is_ok());
    assert!(send_to_all_result(&vec![true]).is_ok());
    assert!(send_to_all_result(&vec![false, true, false]).is_ok());
    assert!(matches!(send_to_all_result(&vec![false]), Err(NsqError::Io(_))));
    assert!(matches!(send_to_all_result(&vec![false, false]), Err(NsqError::Io(_))));
    assert_eq!(command_path("topic/pause", "t", None), "/topic/pause?topic=t");
    assert_eq!(
        command_path("channel/empty", "t", Some("c")),
        "/channel/empty?topic=t&channel=c"
    );
}

#[test]
fn deleting_a_topic_withdraws_its_producers() {
    let mut db = RegistrationDB::new();
    db.register_producer("t".to_string(), producer("10.0.0.1", 4150, 100));
    db.register_producer("u".to_string(), producer("10.0.0.1", 4150, 100));
    db.register_producer("t".to_string(), producer("10.0.0.2", 4150, 100));
    db.add_channel("t", "c");
    db.delete_topic("t");
    assert!(db.get_producers("t").is_empty());
    assert!(db.lookup_at("t", 1000, 1000, 100).producers.is_empty());
    assert!(db.get_channels("t").is_empty());
    assert_eq!(db.get_producers("u").len(), 1);
    assert_eq!(db.get_all_producers().len(), 2);
    assert_eq!(db.get_all_topics(), vec!["u".to_string()]);
}

#[test]
fn a_producer_is_listed_once_however_often_it_registers() {
    let mut db = RegistrationDB::new();
    for heard in [100u64, 200, 300] {
        db.register_producer("t".to_string(), producer("10.0.0.1", 4150, heard));
    }
    db.identify_producer(producer("10.0.0.1", 4150, 400));
    let found = db.lookup_at("t", 1000, 1000, 400);
    assert_eq!(found.producers.len(), 1);
    assert_eq!(found.producers[0].last_update, 400);
    assert_eq!(db.get_producers("t").len(), 1);
    db.tombstone_producer_at("t", "10.0.0.1:4150", 500);
    db.tombstone_producer_at("t", "10.0.0.1:4150", 600);
    assert!(db.is_tombstoned_at("t", "10.0.0.1:4150", 50, 620));
    assert!(!db.is_tombstoned_at("t", "10.0.0.1:4150", 50, 650));
}

#[test]
fn a_broker_tells_of_itself_in_json() {
    let data = br#"{"hostname":"b1","broadcast_address":"10.0.0.5","tcp_port":4150,"http_port":4151,"version":"1.3.0"}"#;
    let peer = PeerInfo::from_json(data, "192.168.0.9:50000", "192.168.0.9").unwrap();
    assert_eq!(peer.remote_address, "192.168.0.9:50000");
    assert_eq!(peer.hostname, "b1");
    assert_eq!(peer.broadcast_address, "10.0.0.5");
    assert_eq!((peer.tcp_port, peer.http_port), (4150, 4151));
    assert_eq!(peer.version, "1.3.0");

    let bare = PeerInfo::from_json(b"{}", "192.168.0.9:50000", "192.168.0.9").unwrap();
    assert_eq!(bare.broadcast_address, "192.168.0.9");
    assert_eq!((bare.hostname.as_str(), bare.version.as_str()), ("", ""));
    assert_eq!((bare.tcp_port, bare.http_port), (0, 0));
    let odd = br#"{"broadcast_address":"","tcp_port":70000,"http_port":"x"}"#;
    let odd = PeerInfo::from_json(odd, "h:1", "h").unwrap();
    assert_eq!(odd.broadcast_address, "h");
    assert_eq!((odd.tcp_port, odd.http_port), (0, 0));
    assert!(PeerInfo::from_json(b"{not json", "h:1", "h").is_none());
    assert!(PeerInfo::from_json(b"", "h:1", "h").is_none());
}

#[test]
fn registries_that_know_one_broker_list_it_once() {
    let known = vec![
        producer("10.0.0.1", 4150, 100),
        producer("10.0.0.2", 4150, 100),
        producer("10.0.0.1", 4150, 200),
        producer("10.0.0.1", 4152, 100),
        producer("10.0.0.2", 4150, 300),
    ];
    let once = unique_producers(&known);
    let listed: Vec<(String, u64)> = once.iter().map(|p| (p.get_id(), p.last_update)).collect();
    assert_eq!(
        listed,
        vec![
            ("10.0.0.1:4150".to_string(), 100),
            ("10.0.0.2:4150".to_string(), 100),
            ("10.0.0.1:4152".to_string(), 100),
        ]
    );
    assert!(unique_producers(&Vec::new()).is_empty());
}
