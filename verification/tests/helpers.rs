use nsq::channel::{Channel, Subscriber};
use nsq::client::{Client, ClientInfo};
use nsq::clock::{nanos_from_reading, now_millis, now_nanos};
use nsq::command::{read_bodies, read_verb, Verb};
use nsq::compression::{codec_result, to_ascii_lowercase};
use nsq::disk_queue::DiskQueue;
use nsq::errors::{NsqError, ProtocolError};
use nsq::message::{Message, MessageId};
use nsq::message_queue::{
    bump_attempts, into_messages, into_redeliveries, ClientId, DeferredMessage, InFlightMessage,
    MessageQueue,
};
use nsq::protocol::{bytes_of, ErrorCode};
use nsq::registry::{read_registry_verb, PeerInfo, Producer, RegistrationDB, RegistryVerb};
use nsq::seqs::{clone_names, contains_name, remove_name};
use nsq::text::{decimal_string, find_byte, join3, space_byte, str_equal, string_bytes};
use nsq::topic::Topic;
use nsq::validation::{name_byte_ok, name_bytes_ok};
use nsq::wire::{
    append_bytes, bytes_equal, copy_range, put_payload, put_u16, put_u32, put_u64, read_payload,
    read_u16, read_u32, read_u64,
};

fn note(n: u64) -> Message {
    Message::with_metadata(MessageId { hi: 1, lo: n }, 500 + n, 0, vec![n as u8])
}

fn holder(n: u64) -> ClientId {
    ClientId { hi: 3, lo: n }
}

#[test]
fn integers_are_big_endian() {
    let mut buf: Vec<u8> = vec![0xff];
    put_u16(&mut buf, 0x0102);
    put_u32(&mut buf, 0x0304_0506);
    put_u64(&mut buf, 0x0708_090a_0b0c_0d0e);
    assert_eq!(buf, vec![0xff, 1, 2, 3, 4, 5, 6, 7, 8, 9, 10, 11, 12, 13, 14]);
    assert_eq!(read_u16(&buf, 1), 0x0102);
    assert_eq!(read_u32(&buf, 3), 0x0304_0506);
    assert_eq!(read_u64(&buf, 7), 0x0708_090a_0b0c_0d0e);
    assert_eq!(read_u16(&[0xff, 0xfe], 0), 0xfffe);
    assert_eq!(read_u32(&[0xff, 0xff, 0xff, 0xff], 0), u32::MAX);
    assert_eq!(read_u64(&[0x80, 0, 0, 0, 0, 0, 0, 1], 0), 0x8000_0000_0000_0001);
}

#[test]
fn byte_helpers() {
    let mut buf: Vec<u8> = b"ab".to_vec();
    append_bytes(&mut buf, b"cd");
    append_bytes(&mut buf, b"");
    assert_eq!(buf, b"abcd".to_vec());
    assert_eq!(copy_range(&buf, 1, 3), b"bc".to_vec());
    assert_eq!(copy_range(&buf, 2, 2), Vec::<u8>::new());
    assert_eq!(copy_range(&buf, 0, 4), b"abcd".to_vec());
    assert!(bytes_equal(b"abc", b"abc"));
    assert!(bytes_equal(b"", b""));
    assert!(!bytes_equal(b"abc", b"abd"));
    assert!(!bytes_equal(b"abc", b"ab"));
    assert_eq!(find_byte(b"a b\nc\n", b'\n'), Some(3));
    assert_eq!(find_byte(b"abc", b'\n'), None);
    assert_eq!(find_byte(b"", b'a'), None);
    assert!(space_byte(b' ') && space_byte(b'\t') && space_byte(b'\n') && space_byte(b'\r'));
    assert!(space_byte(0x0b) && space_byte(0x0c));
    assert!(!space_byte(b'a') && !space_byte(0));
    assert_eq!(to_ascii_lowercase(b"DeFlate-9_Z"), b"deflate-9_z".to_vec());
}

#[test]
fn payloads_carry_their_length() {
    let mut buf: Vec<u8> = Vec::new();
    put_payload(&mut buf, b"hey");
    put_payload(&mut buf, b"");
    assert_eq!(buf, vec![0, 0, 0, 3, b'h', b'e', b'y', 0, 0, 0, 0]);
    assert_eq!(read_payload(&buf), Some(b"hey".to_vec()));
    assert_eq!(read_payload(&buf[7..]), Some(Vec::new()));
    assert_eq!(read_payload(&buf[..6]), None);
    assert_eq!(read_payload(&buf[..3]), None);
    assert_eq!(
        read_bodies(&[0, 0, 0, 2, 0, 0, 0, 1, b'a', 0, 0, 0, 2, b'b', b'c', 9]),
        Some(vec![b"a".to_vec(), b"bc".to_vec()])
    );
    assert_eq!(read_bodies(&[0, 0, 0, 0]), Some(Vec::new()));
    assert_eq!(read_bodies(&[0, 0, 0, 2, 0, 0, 0, 1, b'a']), None);
    assert_eq!(read_bodies(&[0, 0, 0]), None);
}

#[test]
fn string_helpers() {
    assert!(str_equal("topic", "topic"));
    assert!(str_equal("", ""));
    assert!(!str_equal("topic", "topiC"));
    assert!(!str_equal("topic", "topic2"));
    assert_eq!(join3("host", ":", "4150"), "host:4150".to_string());
    assert_eq!(join3("", "", ""), String::new());
    assert_eq!(decimal_string(0), "0");
    assert_eq!(decimal_string(7), "7");
    assert_eq!(decimal_string(10), "10");
    assert_eq!(decimal_string(4150), "4150");
    assert_eq!(decimal_string(u64::MAX), "18446744073709551615");
    assert_eq!(string_bytes(&"a\u{e9}".to_string()), &[0x61, 0xc3, 0xa9][..]);
    assert_eq!(bytes_of("E_INVALID"), b"E_INVALID".to_vec());
    let mut names = vec!["a".to_string(), "b".to_string(), "a".to_string()];
    assert!(contains_name(&names, "b"));
    assert!(!contains_name(&names, "c"));
    assert_eq!(clone_names(&names), names);
    remove_name(&mut names, "a");
    assert_eq!(names, vec!["b".to_string()]);
    remove_name(&mut names, "zzz");
    assert_eq!(names, vec!["b".to_string()]);
}

#[test]
fn name_bytes() {
    for b in [b'a', b'z', b'A', b'Z', b'0', b'9', b'.', b'_', b'-'] {
        assert!(name_byte_ok(b));
    }
    for b in [b' ', b'/', b':', b'#', b'@', 0u8, 0x80, b'\n'] {
        assert!(!name_byte_ok(b));
    }
    assert!(name_bytes_ok(b"orders.eu-1_x"));
    assert!(name_bytes_ok(&[b'a'; 64]));
    assert!(!name_bytes_ok(&[b'a'; 65]));
    assert!(!name_bytes_ok(b""));
    assert!(!name_bytes_ok(b"a b"));
}

#[test]
fn verbs_are_exact_words() {
    assert_eq!(read_verb(b"PUB"), Some(Verb::Pub));
    assert_eq!(read_verb(b"MPUB"), Some(Verb::Mpub));
    assert_eq!(read_verb(b"DPUB"), Some(Verb::Dpub));
    assert_eq!(read_verb(b"CLS"), Some(Verb::Cls));
    assert_eq!(read_verb(b"pub"), None);
    assert_eq!(read_verb(b"PUBS"), None);
    assert_eq!(read_verb(b""), None);
    assert_eq!(read_registry_verb(b"IDENTIFY"), Some(RegistryVerb::Identify));
    assert_eq!(read_registry_verb(b"UNREGISTER"), Some(RegistryVerb::Unregister));
    assert_eq!(read_registry_verb(b"PING"), Some(RegistryVerb::Ping));
    assert_eq!(read_registry_verb(b"ping"), None);
    assert!(ErrorCode::Invalid.is_fatal());
    assert!(!ErrorCode::BadTopic.is_fatal());
    assert!(!ErrorCode::PubFailed.is_fatal());
    assert!(!ErrorCode::AuthFailed.is_fatal());
}

#[test]
fn clock_readings() {
    assert_eq!(nanos_from_reading(Some(1_500)), 1_500);
    assert_eq!(nanos_from_reading(Some(0)), 0);
    assert_eq!(nanos_from_reading(Some(-1)), 0);
    assert_eq!(nanos_from_reading(Some(i64::MAX)), i64::MAX as u64);
    assert_eq!(nanos_from_reading(None), 0);
    let nanos = now_nanos();
    let millis = now_millis();
    assert!(nanos > 1_600_000_000_000_000_000);
    assert!(millis >= nanos / 1_000_000);
    assert!(millis - nanos / 1_000_000 < 60_000);
}

#[test]
fn codec_outcomes() {
    assert_eq!(codec_result(Ok(vec![1, 2])), Ok(vec![1, 2]));
    assert_eq!(
        codec_result(Err("corrupt".to_string())),
        Err(ProtocolError::Compression("corrupt".to_string()))
    );
}

#[test]
fn entries_give_their_messages_back() {
    assert_eq!(bump_attempts(note(1)).attempts, 1);
    let mut worn = note(2);
    worn.attempts = u16::MAX;
    assert_eq!(bump_attempts(worn).attempts, u16::MAX);
    let entries = vec![
        InFlightMessage::new_at(note(1), holder(1), 10, 0),
        InFlightMessage::new_at(note(2), holder(2), 10, 0),
    ];
    let back = into_redeliveries(entries);
    assert_eq!(back.iter().map(|m| (m.id.lo, m.attempts)).collect::<Vec<_>>(), vec![(1, 1), (2, 1)]);
    let waiting = vec![
        DeferredMessage { message: note(5), ready_at: 9 },
        DeferredMessage { message: note(4), ready_at: 3 },
    ];
    let plain = into_messages(waiting);
    assert_eq!(plain.iter().map(|m| (m.id.lo, m.attempts)).collect::<Vec<_>>(), vec![(5, 0), (4, 0)]);
    assert_ne!(ClientId::generate(), ClientId::generate());
    assert_ne!(MessageId::generate(), MessageId::generate());
}

#[test]
fn queue_by_the_clock() {
    let mut q = MessageQueue::new(10, None);
    q.mark_in_flight(note(1), holder(1), 3_600_000).unwrap();
    q.mark_in_flight(note(2), holder(1), 0).unwrap();
    let expired = q.cleanup_timeouts().unwrap();
    assert_eq!(expired.iter().map(|m| (m.id.lo, m.attempts)).collect::<Vec<_>>(), vec![(2, 1)]);
    assert_eq!(q.in_flight_count(), 1);

    q.defer(note(1).id, 0).unwrap();
    assert_eq!((q.in_flight_count(), q.deferred_count()), (0, 1));
    assert!(matches!(q.defer(note(1).id, 0), Err(NsqError::Queue(_))));
    let ready = q.process_deferred().unwrap();
    assert_eq!(ready.iter().map(|m| (m.id.lo, m.attempts)).collect::<Vec<_>>(), vec![(1, 1)]);
    assert_eq!(q.deferred_count(), 0);

    q.mark_in_flight(note(3), holder(1), 3_600_000).unwrap();
    q.requeue(note(3).id, 0).unwrap();
    assert_eq!((q.in_flight_count(), q.depth()), (0, 1));
    assert_eq!(q.get().unwrap().unwrap().attempts, 1);
    q.mark_in_flight(note(4), holder(1), 3_600_000).unwrap();
    q.requeue(note(4).id, 3_600_000).unwrap();
    assert_eq!((q.in_flight_count(), q.depth(), q.deferred_count()), (0, 0, 1));
    assert!(q.process_deferred().unwrap().is_empty());
    assert!(matches!(q.requeue(note(4).id, 0), Err(NsqError::Queue(_))));
}

#[test]
fn queue_release_restore_and_clear() {
    let mut q = MessageQueue::new(1, None);
    q.put(note(1)).unwrap();
    assert!(matches!(q.put(note(2)), Err(NsqError::Queue(_))));
    q.adopt(note(2)).unwrap();
    assert_eq!(q.depth(), 2);
    assert_eq!(q.stats().total_messages, 2);

    q.mark_in_flight_at(note(3), holder(1), 100, 0).unwrap();
    q.mark_in_flight_at(note(4), holder(2), 100, 0).unwrap();
    q.mark_in_flight_at(note(5), holder(1), 100, 0).unwrap();
    let back = q.release_client(holder(1));
    assert_eq!(back.iter().map(|m| (m.id.lo, m.attempts)).collect::<Vec<_>>(), vec![(3, 1), (5, 1)]);
    assert_eq!(q.in_flight_count(), 1);
    assert!(q.release_client(holder(9)).is_empty());
    q.restore(back);
    assert_eq!(q.depth(), 4);
    assert_eq!(q.stats().total_messages, 2);

    q.put_deferred_at(note(6), 50).unwrap();
    q.put_deferred_at(note(6), 70).unwrap();
    assert_eq!(q.deferred_count(), 1);
    assert!(q.process_deferred_at(69).unwrap().is_empty());
    assert_eq!(q.process_deferred_at(70).unwrap().len(), 1);

    q.load_record(&note(7).to_bytes()).unwrap();
    assert_eq!(q.depth(), 5);
    assert!(matches!(q.load_record(b"short"), Err(NsqError::Protocol(_))));
    assert_eq!(q.depth(), 5);

    q.put_deferred_at(note(8), 50).unwrap();
    q.clear();
    assert_eq!((q.depth(), q.in_flight_count(), q.deferred_count()), (0, 0, 0));
    assert!(q.get().unwrap().is_none());
}

#[test]
fn a_fresh_backing_keeps_the_limits() {
    let mut used = DiskQueue::new(64, 16);
    used.put(b"abc").unwrap();
    let fresh = used.fresh();
    assert_eq!((fresh.depth(), fresh.read_file_num(), fresh.write_file_num()), (0, 0, 0));
    assert!(fresh.accepts(16));
    assert!(!fresh.accepts(17));
}

#[test]
fn channel_by_the_clock() {
    let mut c = Channel::new("c".to_string(), "t".to_string(), MessageQueue::new(10, None)).unwrap();
    assert_eq!(c.choose_client(), None);
    c.add_client(Subscriber { client_id: holder(1), rdy: 0, max_in_flight: 10, msg_timeout: 0 });
    c.add_client(Subscriber { client_id: holder(2), rdy: 0, max_in_flight: 10, msg_timeout: 0 });
    assert_eq!(c.choose_client(), None);
    c.set_ready(holder(2), 3);
    assert_eq!(c.choose_client(), Some(1));
    c.set_ready(holder(1), 1);
    assert_eq!(c.choose_client(), Some(0));
    c.set_ready(holder(7), 1);
    assert_eq!(c.stats().depth, 0);

    c.mark_in_flight(note(1), holder(1), 3_600_000).unwrap();
    c.requeue_message(note(1).id, 0).unwrap();
    assert_eq!((c.depth(), c.in_flight_count()), (1, 0));
    assert!(matches!(c.requeue_message(note(1).id, 0), Err(NsqError::Queue(_))));

    c.mark_in_flight(note(2), holder(1), 3_600_000).unwrap();
    c.defer_message(note(2).id, 0).unwrap();
    assert_eq!((c.in_flight_count(), c.deferred_count()), (0, 1));
    c.process_deferred().unwrap();
    assert_eq!((c.depth(), c.deferred_count()), (2, 0));
    c.mark_in_flight(note(3), holder(2), 3_600_000).unwrap();
    c.defer_message_at(note(3).id, 40, 100).unwrap();
    c.process_deferred_at(139).unwrap();
    assert_eq!(c.deferred_count(), 1);
    c.process_deferred_at(140).unwrap();
    assert_eq!((c.depth(), c.deferred_count()), (3, 0));

    c.mark_in_flight(note(4), holder(2), 0).unwrap();
    c.mark_in_flight_at(note(5), holder(2), 50, 1_000).unwrap();
    c.touch_message_at(note(5).id, u64::MAX - 50).unwrap();
    c.cleanup_timeouts().unwrap();
    assert_eq!((c.depth(), c.in_flight_count()), (4, 1));
    assert!(matches!(c.touch_message_at(note(4).id, 0), Err(NsqError::Queue(_))));
    c.requeue_message_at(note(5).id, 10, 2_000).unwrap();
    assert_eq!((c.in_flight_count(), c.deferred_count()), (0, 1));

    c.adopt_message(note(9)).unwrap();
    assert_eq!(c.depth(), 5);
    assert_eq!(c.stats().message_count, 1);
}

#[test]
fn topic_by_the_clock() {
    let mut t = Topic::new("t".to_string(), 10, None).unwrap();
    t.add_channel("a".to_string()).unwrap();
    t.add_channel("b".to_string()).unwrap();
    assert_eq!(t.channel_index("a"), Some(0));
    assert_eq!(t.channel_index("b"), Some(1));
    assert_eq!(t.channel_index("c"), None);
    t.publish(note(1)).unwrap();
    t.process_deferred().unwrap();
    t.cleanup_timeouts().unwrap();
    assert_eq!(t.depth(), 0);
    assert_eq!(t.get_channel("a").unwrap().depth(), 1);
    assert_eq!(t.get_channel("b").unwrap().depth(), 1);
    assert_eq!(t.message_count(), 1);
}

#[test]
fn client_settings_can_be_swapped() {
    let mut first = ClientInfo::default();
    first.remote_addr = "10.0.0.1:5000".to_string();
    let mut client = Client::new(first);
    let id = client.info().id;
    assert!(client.in_flight_ids().is_empty());
    client.add_in_flight_at(&note(1), 10);
    client.add_in_flight_at(&note(2), 10);
    assert_eq!(client.in_flight_ids(), &vec![note(1).id, note(2).id]);

    let mut second = ClientInfo::default();
    second.remote_addr = "10.0.0.2:5000".to_string();
    second.msg_timeout = 5;
    let was = client.replace_info(second);
    assert_eq!(was.remote_addr, "10.0.0.1:5000".to_string());
    assert_eq!(client.info().remote_addr, "10.0.0.2:5000".to_string());
    assert_eq!(client.info().msg_timeout, 5);

    let mut third = ClientInfo::default();
    third.id = id;
    third.hostname = Some("worker".to_string());
    client.set_info(third);
    assert_eq!(client.info().hostname, Some("worker".to_string()));
    assert_eq!(client.in_flight_count(), 2);
}

#[test]
fn identify_records_the_broker_without_a_topic() {
    let mut db = RegistrationDB::new();
    let peer = PeerInfo {
        remote_address: "10.0.0.5:40000".to_string(),
        hostname: "b1".to_string(),
        broadcast_address: "10.0.0.5".to_string(),
        tcp_port: 4150,
        http_port: 4151,
        version: "1.3.0".to_string(),
    };
    let producer: Producer = peer.to_producer(77);
    assert_eq!(producer.get_id(), "10.0.0.5:4150".to_string());
    assert_eq!(producer.last_update, 77);
    assert!(!producer.tombstoned);
    db.identify_producer(producer);
    db.identify_producer(peer.to_producer(99));
    let all = db.get_all_producers();
    assert_eq!(all.len(), 1);
    assert_eq!(all[0].last_update, 99);
    assert!(db.get_all_topics().is_empty());
    assert!(db.get_producers("t").is_empty());
}
