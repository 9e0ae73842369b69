use nsq::channel::{Channel, ChannelOp, Subscriber};
use nsq::disk_queue::{
    parse_segment_file_name, scan_segment, segment_file_name, DiskQueue, DiskRead, Segment,
    SegmentScan,
};
use nsq::errors::NsqError;
use nsq::message::{Message, MessageId};
use nsq::message_queue::{ClientId, InFlightMessage, MessageQueue};
use nsq::topic::Topic;

fn msg(n: u64, body: &[u8]) -> Message {
    Message::with_metadata(MessageId { hi: 0, lo: n }, 1000 + n, 0, body.to_vec())
}

fn client(n: u64) -> ClientId {
    ClientId { hi: 7, lo: n }
}

fn subscriber(n: u64, rdy: u32) -> Subscriber {
    Subscriber { client_id: client(n), rdy, max_in_flight: 10, msg_timeout: 100 }
}

#[test]
fn queue_is_fifo() {
    let mut q = MessageQueue::new(10, None);
    q.put(msg(1, b"a")).unwrap();
    q.put(msg(2, b"b")).unwrap();
    q.put(msg(3, b"c")).unwrap();
    assert_eq!(q.depth(), 3);
    assert_eq!(q.get().unwrap().unwrap().body, b"a".to_vec());
    assert_eq!(q.get().unwrap().unwrap().body, b"b".to_vec());
    assert_eq!(q.get().unwrap().unwrap().body, b"c".to_vec());
    assert!(q.get().unwrap().is_none());
    let stats = q.stats();
    assert_eq!(stats.total_messages, 3);
    assert_eq!(stats.total_bytes, 3 * 27);
}

#[test]
fn full_memory_without_disk_is_a_queue_error() {
    let mut q = MessageQueue::new(2, None);
    q.put(msg(1, b"a")).unwrap();
    q.put(msg(2, b"b")).unwrap();
    let err = q.put(msg(3, b"c")).unwrap_err();
    assert_eq!(
        err,
        NsqError::Queue("Memory queue full and no disk queue available".to_string())
    );
    assert_eq!(q.depth(), 2);
    assert_eq!(q.stats().total_messages, 2);
    assert!(!q.accepts(&msg(4, b"d")));
    assert!(q.has_room(0, 0));
    assert!(!q.has_room(1, 1));
}

#[test]
fn full_memory_spills_to_disk_and_comes_back() {
    let mut q = MessageQueue::new(1, Some(DiskQueue::new(1000, 100)));
    q.put(msg(1, b"a")).unwrap();
    q.put(msg(2, b"bb")).unwrap();
    q.put(msg(3, b"ccc")).unwrap();
    assert_eq!(q.depth(), 1);
    assert_eq!(q.backend_depth(), 2);
    let writes = q.take_disk_writes();
    assert_eq!(writes.len(), 2);
    assert_eq!(writes[0].file_num, 0);
    assert_eq!(writes[0].offset, 0);
    assert_eq!(writes[0].record.len(), 4 + 26 + 2);
    assert_eq!(&writes[0].record[..4], &[0, 0, 0, 28]);
    assert_eq!(writes[1].offset, 32);
    assert!(q.take_disk_writes().is_empty());

    let mut segment = writes[0].record.clone();
    segment.extend_from_slice(&writes[1].record);
    assert_eq!(q.get().unwrap().unwrap().body, b"a".to_vec());
    assert!(q.get().unwrap().is_none());
    assert!(q.read_disk(&segment).unwrap());
    assert_eq!(q.backend_depth(), 1);
    let back = q.get().unwrap().unwrap();
    assert_eq!(back.body, b"bb".to_vec());
    assert_eq!(back.id, MessageId { hi: 0, lo: 2 });
    assert!(q.read_disk(&segment).unwrap());
    assert_eq!(q.get().unwrap().unwrap().body, b"ccc".to_vec());
    assert!(!q.read_disk(&segment).unwrap());
    assert_eq!(q.backend_depth(), 0);
}

#[test]
fn disk_refuses_oversize_records() {
    let mut q = MessageQueue::new(0, Some(DiskQueue::new(1000, 30)));
    q.put(msg(1, b"abcd")).unwrap();
    let err = q.put(msg(2, b"abcde")).unwrap_err();
    assert!(matches!(err, NsqError::Validation(_)));
    assert_eq!(q.backend_depth(), 1);
}

#[test]
fn finish_requeue_and_touch() {
    let mut q = MessageQueue::new(10, None);
    let id = MessageId { hi: 0, lo: 1 };
    q.mark_in_flight_at(msg(1, b"a"), client(1), 100, 1000).unwrap();
    assert!(q.is_in_flight(id));
    assert_eq!(q.in_flight_count(), 1);
    assert_eq!(q.in_flight_for(client(1)), 1);
    assert_eq!(q.in_flight_for(client(2)), 0);

    q.touch_at(id, 1050).unwrap();
    assert!(q.cleanup_timeouts_at(1149).unwrap().is_empty());
    let expired = q.cleanup_timeouts_at(1150).unwrap();
    assert_eq!(expired.len(), 1);
    assert_eq!(expired[0].attempts, 1);
    assert_eq!(q.in_flight_count(), 0);
    assert_eq!(q.stats().messages_timed_out, 1);

    let missing = NsqError::Queue("Message not found in flight".to_string());
    assert_eq!(q.finish(id).unwrap_err(), missing);
    assert_eq!(q.requeue_at(id, 0, 0).unwrap_err(), missing);
    assert_eq!(q.defer_at(id, 5, 0).unwrap_err(), missing);
    assert_eq!(q.touch_at(id, 0).unwrap_err(), missing);

    q.mark_in_flight_at(msg(1, b"a"), client(1), 100, 2000).unwrap();
    q.requeue_at(id, 0, 2001).unwrap();
    assert_eq!(q.in_flight_count(), 0);
    assert_eq!(q.depth(), 1);
    assert_eq!(q.stats().messages_requeued, 1);
    let again = q.get().unwrap().unwrap();
    assert_eq!(again.attempts, 1);

    q.mark_in_flight_at(again, client(1), 100, 3000).unwrap();
    q.requeue_at(id, 500, 3010).unwrap();
    assert_eq!(q.depth(), 0);
    assert_eq!(q.deferred_count(), 1);
    assert!(q.process_deferred_at(3509).unwrap().is_empty());
    let ready = q.process_deferred_at(3510).unwrap();
    assert_eq!(ready.len(), 1);
    assert_eq!(ready[0].attempts, 2);
    assert_eq!(q.deferred_count(), 0);

    q.mark_in_flight_at(msg(1, b"a"), client(1), 100, 4000).unwrap();
    q.finish(id).unwrap();
    assert_eq!(q.in_flight_count(), 0);
    assert_eq!(q.depth(), 0);
}

#[test]
fn marking_in_flight_twice_replaces() {
    let mut q = MessageQueue::new(10, None);
    q.mark_in_flight_at(msg(1, b"a"), client(1), 100, 1000).unwrap();
    q.mark_in_flight_at(msg(1, b"a"), client(2), 100, 1001).unwrap();
    assert_eq!(q.in_flight_count(), 1);
    assert_eq!(q.in_flight_for(client(1)), 0);
    assert_eq!(q.in_flight_for(client(2)), 1);
}

#[test]
fn in_flight_entry_times() {
    let e = InFlightMessage::new_at(msg(1, b"a"), client(1), 100, 1000);
    assert!(!e.is_timed_out_at(1099));
    assert!(e.is_timed_out_at(1100));
    assert!(e.is_timed_out_at(5000));
    assert_eq!(e.time_remaining_at(1000), 100);
    assert_eq!(e.time_remaining_at(1040), 60);
    assert_eq!(e.time_remaining_at(1100), 0);
    assert_eq!(e.time_remaining_at(900), 200);
    let now = InFlightMessage::new(msg(2, b"b"), client(1), 60_000);
    assert!(!now.is_timed_out());
    assert!(now.time_remaining() <= 60_000);
    assert_eq!(now.requeue_count, 0);
}

#[test]
fn channel_names_are_validated() {
    assert!(Channel::new("ok".to_string(), "t".to_string(), MessageQueue::new(1, None)).is_ok());
    let err = Channel::new("".to_string(), "t".to_string(), MessageQueue::new(1, None));
    assert!(matches!(err, Err(NsqError::Validation(_))));
    let err = Channel::new("no good".to_string(), "t".to_string(), MessageQueue::new(1, None));
    assert!(matches!(err, Err(NsqError::Validation(_))));
}

#[test]
fn channel_dispatch_is_round_robin_over_credit() {
    let mut c = Channel::new_at("c".to_string(), "t".to_string(), MessageQueue::new(100, None), 0)
        .unwrap();
    for n in 0..6u64 {
        c.distribute_message(msg(n, b"m")).unwrap();
    }
    assert!(c.dispatch_at(10).is_none());
    c.add_client(subscriber(1, 2));
    c.add_client(subscriber(2, 0));
    c.add_client(subscriber(3, 5));
    let order: Vec<u64> = (0..6).filter_map(|_| c.dispatch_at(10)).map(|d| d.client_id.lo).collect();
    assert_eq!(order, vec![1, 3, 1, 3, 3, 3]);
    assert_eq!(c.depth(), 0);
    assert_eq!(c.in_flight_count(), 6);
    assert!(c.dispatch_at(10).is_none());
}

#[test]
fn channel_respects_max_in_flight() {
    let mut c = Channel::new_at("c".to_string(), "t".to_string(), MessageQueue::new(100, None), 0)
        .unwrap();
    for n in 0..4u64 {
        c.distribute_message(msg(n, b"m")).unwrap();
    }
    c.add_client(Subscriber { client_id: client(1), rdy: 10, max_in_flight: 2, msg_timeout: 100 });
    assert!(c.dispatch_at(1).is_some());
    assert!(c.dispatch_at(1).is_some());
    assert!(c.dispatch_at(1).is_none());
    c.finish_message(MessageId { hi: 0, lo: 0 }).unwrap();
    let next = c.dispatch_at(2).unwrap();
    assert_eq!(next.message.id, MessageId { hi: 0, lo: 2 });
}

#[test]
fn paused_channel_accumulates_but_does_not_deliver() {
    let mut c = Channel::new_at("c".to_string(), "t".to_string(), MessageQueue::new(100, None), 0)
        .unwrap();
    c.add_client(subscriber(1, 5));
    c.pause().unwrap();
    assert!(c.is_paused());
    c.distribute_message(msg(1, b"m")).unwrap();
    assert_eq!(c.depth(), 1);
    assert!(c.dispatch_at(1).is_none());
    assert!(c.get_message().unwrap().is_none());
    c.unpause().unwrap();
    assert!(c.dispatch_at(1).is_some());
}

#[test]
fn channel_empty_is_idempotent() {
    let mut c = Channel::new_at("c".to_string(), "t".to_string(), MessageQueue::new(100, None), 0)
        .unwrap();
    c.add_client(subscriber(1, 5));
    for n in 0..3u64 {
        c.distribute_message(msg(n, b"m")).unwrap();
    }
    c.dispatch_at(1).unwrap();
    c.distribute_deferred_at(msg(9, b"d"), 500).unwrap();
    assert_eq!((c.depth(), c.in_flight_count(), c.deferred_count()), (2, 1, 1));
    c.empty().unwrap();
    assert_eq!((c.depth(), c.in_flight_count(), c.deferred_count()), (0, 0, 0));
    let stats = c.stats();
    c.empty().unwrap();
    assert_eq!(c.stats(), stats);
    assert_eq!(stats.message_count, 4);
    assert_eq!(stats.client_count, 1);
}

#[test]
fn client_loss_requeues_at_the_tail() {
    let mut c = Channel::new_at("c".to_string(), "t".to_string(), MessageQueue::new(100, None), 0)
        .unwrap();
    c.add_client(subscriber(1, 5));
    c.add_client(subscriber(2, 5));
    for n in 0..4u64 {
        c.distribute_message(msg(n, b"m")).unwrap();
    }
    c.dispatch_at(1).unwrap();
    c.dispatch_at(1).unwrap();
    c.dispatch_at(1).unwrap();
    assert_eq!(c.queue().in_flight_for(client(1)), 2);
    c.remove_client(client(1));
    assert_eq!(c.queue().in_flight_for(client(1)), 0);
    assert_eq!(c.in_flight_count(), 1);
    assert_eq!(c.depth(), 3);
    assert_eq!(c.stats().client_count, 1);
    let first = c.get_message().unwrap().unwrap();
    assert_eq!((first.id.lo, first.attempts), (3, 0));
    let second = c.get_message().unwrap().unwrap();
    assert_eq!((second.id.lo, second.attempts), (0, 1));
    let third = c.get_message().unwrap().unwrap();
    assert_eq!((third.id.lo, third.attempts), (2, 1));
}

#[test]
fn channel_apply_covers_the_operations() {
    let mut c = Channel::new_at("c".to_string(), "t".to_string(), MessageQueue::new(100, None), 0)
        .unwrap();
    c.apply(ChannelOp::Subscribe(subscriber(1, 0)), 0, false).unwrap();
    c.apply(ChannelOp::Ready { client: client(1), count: 3 }, 0, false).unwrap();
    c.distribute_message(msg(1, b"m")).unwrap();
    assert!(c.apply(ChannelOp::Dispatch, 5, true).unwrap().is_none());
    let d = c.apply(ChannelOp::Dispatch, 5, false).unwrap().unwrap();
    assert_eq!(d.client_id, client(1));
    let id = d.message.id;
    c.apply(ChannelOp::Touch(id), 50, false).unwrap();
    c.apply(ChannelOp::Requeue { id, delay: 10 }, 60, false).unwrap();
    assert_eq!(c.deferred_count(), 1);
    assert!(matches!(c.apply(ChannelOp::Finish(id), 61, false), Err(NsqError::Queue(_))));
    c.process_deferred_at(70).unwrap();
    assert_eq!(c.depth(), 1);
    c.apply(ChannelOp::Pause, 0, false).unwrap();
    assert!(c.is_paused());
    c.apply(ChannelOp::Unpause, 0, false).unwrap();
    c.apply(ChannelOp::Unsubscribe(client(1)), 0, false).unwrap();
    assert_eq!(c.stats().client_count, 0);
    c.apply(ChannelOp::Empty, 0, false).unwrap();
    assert_eq!(c.depth(), 0);
}

#[test]
fn topic_fans_out_to_every_channel() {
    let mut t = Topic::new_at("t2".to_string(), 10, None, 5).unwrap();
    t.add_channel_at("c_a".to_string(), 6).unwrap();
    t.add_channel_at("c_b".to_string(), 7).unwrap();
    let ids = vec![MessageId { hi: 9, lo: 9 }];
    t.publish_with_ids(msg(1, b"x"), &ids).unwrap();
    assert_eq!(t.message_count(), 1);
    assert_eq!(t.depth(), 0);
    let a = t.get_channel("c_a").unwrap();
    let b = t.get_channel("c_b").unwrap();
    assert_eq!(a.depth(), 1);
    assert_eq!(b.depth(), 1);
    t.apply("c_a", ChannelOp::Subscribe(subscriber(1, 1)), 0).unwrap();
    t.apply("c_b", ChannelOp::Subscribe(subscriber(2, 1)), 0).unwrap();
    let da = t.apply("c_a", ChannelOp::Dispatch, 10).unwrap().unwrap();
    let db = t.apply("c_b", ChannelOp::Dispatch, 10).unwrap().unwrap();
    assert_eq!(da.message.body, b"x".to_vec());
    assert_eq!(db.message.body, b"x".to_vec());
    assert_eq!(da.message.id, MessageId { hi: 0, lo: 1 });
    assert_eq!(db.message.id, MessageId { hi: 9, lo: 9 });
    assert_ne!(da.message.id, db.message.id);
    let stats = t.stats();
    assert_eq!(stats.in_flight_count, 2);
    assert_eq!(stats.channel_count, 2);
    assert_eq!(stats.message_count, 1);
}

#[test]
fn topic_publish_uses_fresh_ids_for_copies() {
    let mut t = Topic::new("t".to_string(), 10, None).unwrap();
    t.add_channel("a".to_string()).unwrap();
    t.add_channel("b".to_string()).unwrap();
    t.add_channel("c".to_string()).unwrap();
    t.publish(Message::new(b"x".to_vec())).unwrap();
    for name in ["a", "b", "c"] {
        t.apply(name, ChannelOp::Subscribe(subscriber(1, 1)), 0).unwrap();
    }
    let a = t.apply("a", ChannelOp::Dispatch, 1).unwrap().unwrap().message.id;
    let b = t.apply("b", ChannelOp::Dispatch, 1).unwrap().unwrap().message.id;
    let c = t.apply("c", ChannelOp::Dispatch, 1).unwrap().unwrap().message.id;
    assert!(a != b && b != c && a != c);
}

#[test]
fn first_channel_takes_the_backlog() {
    let mut t = Topic::new_at("t".to_string(), 10, None, 0).unwrap();
    t.publish_with_ids(msg(1, b"a"), &Vec::new()).unwrap();
    t.publish_with_ids(msg(2, b"b"), &Vec::new()).unwrap();
    assert_eq!(t.depth(), 2);
    t.add_channel_at("first".to_string(), 1).unwrap();
    assert_eq!(t.depth(), 0);
    assert_eq!(t.get_channel("first").unwrap().depth(), 2);
    assert_eq!(t.get_channel("first").unwrap().stats().message_count, 2);
    t.add_channel_at("second".to_string(), 2).unwrap();
    assert_eq!(t.get_channel("second").unwrap().depth(), 0);
    assert_eq!(t.message_count(), 2);
}

#[test]
fn topic_channel_management_errors() {
    let mut t = Topic::new("t".to_string(), 10, None).unwrap();
    t.add_channel("c".to_string()).unwrap();
    assert_eq!(
        t.add_channel("c".to_string()).unwrap_err(),
        NsqError::Validation("Channel already exists".to_string())
    );
    assert!(matches!(t.add_channel("bad name".to_string()), Err(NsqError::Validation(_))));
    assert_eq!(
        t.remove_channel("nope").unwrap_err(),
        NsqError::Validation("Channel not found".to_string())
    );
    assert_eq!(
        t.apply("nope", ChannelOp::Pause, 0).unwrap_err(),
        NsqError::Validation("Channel not found".to_string())
    );
    t.remove_channel("c").unwrap();
    assert!(t.get_channel("c").is_none());
    assert!(t.get_channels().is_empty());
    assert!(matches!(Topic::new("".to_string(), 1, None), Err(NsqError::Validation(_))));
}

#[test]
fn topic_full_channel_rejects_the_publish_for_all() {
    let mut t = Topic::new_at("t".to_string(), 1, None, 0).unwrap();
    t.add_channel_at("a".to_string(), 0).unwrap();
    t.add_channel_at("b".to_string(), 0).unwrap();
    t.publish_with_ids(msg(1, b"x"), &Vec::new()).unwrap();
    t.apply("a", ChannelOp::Empty, 0).unwrap();
    let err = t.publish_with_ids(msg(2, b"y"), &Vec::new()).unwrap_err();
    assert!(matches!(err, NsqError::Queue(_)));
    assert_eq!(t.get_channel("a").unwrap().depth(), 0);
    assert_eq!(t.get_channel("b").unwrap().depth(), 1);
    assert_eq!(t.message_count(), 1);
}

#[test]
fn batch_publish_is_all_or_nothing() {
    let mut t = Topic::new_at("t".to_string(), 3, None, 0).unwrap();
    t.add_channel_at("a".to_string(), 0).unwrap();
    t.publish_with_ids(msg(1, b"x"), &Vec::new()).unwrap();
    let too_many = vec![msg(2, b"a"), msg(3, b"b"), msg(4, b"c")];
    assert!(!t.room_for(3, 27));
    assert!(t.room_for(2, 27));
    assert!(matches!(t.publish_multiple_with_ids(too_many, &Vec::new()), Err(NsqError::Queue(_))));
    assert_eq!(t.get_channel("a").unwrap().depth(), 1);
    assert_eq!(t.message_count(), 1);
    let fits = vec![msg(2, b"a"), msg(3, b"b")];
    t.publish_multiple_with_ids(fits, &Vec::new()).unwrap();
    assert_eq!(t.get_channel("a").unwrap().depth(), 3);
    assert_eq!(t.message_count(), 3);
    t.publish_multiple(Vec::new()).unwrap();
    assert_eq!(t.message_count(), 3);
}

#[test]
fn topic_pause_is_idempotent_and_unpause_undoes_it() {
    let mut t = Topic::new_at("t".to_string(), 10, None, 0).unwrap();
    t.add_channel_at("c".to_string(), 0).unwrap();
    t.apply("c", ChannelOp::Subscribe(subscriber(1, 5)), 0).unwrap();
    t.publish_with_ids(msg(1, b"x"), &Vec::new()).unwrap();
    assert!(!t.is_paused());
    t.pause().unwrap();
    t.pause().unwrap();
    assert!(t.is_paused());
    assert!(!t.get_channel("c").unwrap().is_paused());
    assert!(t.apply("c", ChannelOp::Dispatch, 1).unwrap().is_none());
    t.publish_with_ids(msg(2, b"y"), &Vec::new()).unwrap();
    assert_eq!(t.get_channel("c").unwrap().depth(), 2);
    t.unpause().unwrap();
    assert!(!t.is_paused());
    assert!(t.apply("c", ChannelOp::Dispatch, 1).unwrap().is_some());
}

#[test]
fn topic_sweeps_and_counts() {
    let mut t = Topic::new_at("t".to_string(), 10, None, 0).unwrap();
    t.add_channel_at("a".to_string(), 0).unwrap();
    t.add_channel_at("b".to_string(), 0).unwrap();
    t.apply("a", ChannelOp::Subscribe(subscriber(1, 5)), 0).unwrap();
    t.publish_with_ids(msg(1, b"x"), &vec![MessageId { hi: 1, lo: 1 }]).unwrap();
    t.publish_deferred_with_ids(msg(2, b"y"), &vec![MessageId { hi: 1, lo: 2 }], 500).unwrap();
    assert_eq!(t.deferred_count(), 2);
    t.apply("a", ChannelOp::Dispatch, 100).unwrap().unwrap();
    assert_eq!(t.in_flight_count(), 1);
    t.cleanup_timeouts_at(199).unwrap();
    assert_eq!(t.in_flight_count(), 1);
    t.cleanup_timeouts_at(200).unwrap();
    assert_eq!(t.in_flight_count(), 0);
    assert_eq!(t.get_channel("a").unwrap().depth(), 1);
    t.process_deferred_at(500).unwrap();
    assert_eq!(t.deferred_count(), 0);
    assert_eq!(t.get_channel("a").unwrap().depth(), 2);
    assert_eq!(t.get_channel("b").unwrap().depth(), 2);
    let stats = t.stats();
    assert_eq!(stats.message_count, 2);
    assert_eq!(stats.timeout_count, 1);
    let held: u64 = t
        .get_channels()
        .iter()
        .map(|c| (c.depth() + c.in_flight_count() + c.deferred_count()) as u64)
        .sum();
    assert!(held <= 2 * stats.message_count);
    for c in t.get_channels() {
        let s = c.stats();
        assert!(s.depth + s.in_flight_count + s.deferred_count <= stats.message_count);
    }
    t.delete().unwrap();
    assert!(t.get_channels().is_empty());
    assert!(t.is_paused());
}

#[test]
fn disk_queue_rotates_and_reads_in_order() {
    let mut d = DiskQueue::new(20, 100);
    let w1 = d.put(b"12345678").unwrap();
    assert_eq!((w1.file_num, w1.offset), (0, 0));
    assert_eq!(w1.record, b"\x00\x00\x00\x0812345678".to_vec());
    let w2 = d.put(b"abcd").unwrap();
    assert_eq!((w2.file_num, w2.offset), (0, 12));
    let w3 = d.put(b"x").unwrap();
    assert_eq!((w3.file_num, w3.offset), (1, 0));
    assert_eq!(d.depth(), 3);
    assert_eq!(d.write_file_num(), 1);
    assert!(matches!(d.put(&[0u8; 101]), Err(NsqError::Validation(_))));

    let mut seg0 = w1.record.clone();
    seg0.extend_from_slice(&w2.record);
    assert!(matches!(d.get(&seg0), DiskRead::Record(ref r) if r == b"12345678"));
    assert!(matches!(d.get(&seg0), DiskRead::Record(ref r) if r == b"abcd"));
    assert!(matches!(d.get(&seg0), DiskRead::NextSegment));
    assert_eq!(d.read_file_num(), 1);
    assert!(matches!(d.get(&w3.record), DiskRead::Record(ref r) if r == b"x"));
    assert!(matches!(d.get(&w3.record), DiskRead::Empty));
    assert_eq!(d.depth(), 0);
    d.sync();
    d.sync();
    assert_eq!(d.sync_count(), 2);
}

#[test]
fn segment_scan_stops_at_a_truncated_record() {
    let whole = b"\x00\x00\x00\x01a\x00\x00\x00\x00\x00\x00\x00\x02bc".to_vec();
    assert_eq!(
        scan_segment(&whole),
        SegmentScan { records: 3, valid_len: 15, truncated: false }
    );
    let mut cut = whole.clone();
    cut.extend_from_slice(b"\x00\x00\x00\x05ab");
    assert_eq!(scan_segment(&cut), SegmentScan { records: 3, valid_len: 15, truncated: true });
    assert_eq!(scan_segment(b""), SegmentScan { records: 0, valid_len: 0, truncated: false });
    assert_eq!(scan_segment(b"\x00\x00"), SegmentScan { records: 0, valid_len: 0, truncated: true });
}

#[test]
fn disk_queue_recovers_from_segments() {
    let scan = |records, valid_len| SegmentScan { records, valid_len, truncated: false };
    let segments = vec![
        Segment { file_num: 4, scan: scan(2, 40) },
        Segment { file_num: 7, scan: scan(1, 9) },
        Segment { file_num: 5, scan: scan(3, 60) },
    ];
    let mut d = DiskQueue::recover(100, 50, &segments);
    assert_eq!(d.depth(), 6);
    assert_eq!(d.read_file_num(), 4);
    assert_eq!(d.write_file_num(), 7);
    let w = d.put(b"abc").unwrap();
    assert_eq!((w.file_num, w.offset), (7, 9));
    let empty = DiskQueue::recover(100, 50, &Vec::new());
    assert_eq!((empty.depth(), empty.read_file_num(), empty.write_file_num()), (0, 0, 0));
}

#[test]
fn segment_file_names() {
    assert_eq!(segment_file_name(0), b"nsq.0.dat".to_vec());
    assert_eq!(segment_file_name(1234), b"nsq.1234.dat".to_vec());
    assert_eq!(parse_segment_file_name(b"nsq.0.dat"), Some(0));
    assert_eq!(parse_segment_file_name(b"nsq.42.dat"), Some(42));
    assert_eq!(parse_segment_file_name(b"nsq..dat"), None);
    assert_eq!(parse_segment_file_name(b"nsq.x.dat"), None);
    assert_eq!(parse_segment_file_name(b"nsq.1.dat.bak"), None);
    assert_eq!(parse_segment_file_name(b"meta"), None);
}

#[test]
fn old_segments_are_deleted_only_when_drained() {
    let mut d = DiskQueue::recovered(100, 50, 3, 5, 0, 0);
    assert_eq!(d.delete_old_files(&vec![1, 2, 3, 4, 5], 2), vec![1, 2]);
    assert_eq!(d.delete_old_files(&vec![5, 1, 4, 2, 3], 4), vec![1]);
    assert!(d.delete_old_files(&vec![1, 2, 3, 4, 5], 5).is_empty());
    d.skip_all();
    assert_eq!(d.delete_old_files(&vec![1, 2, 3, 4, 5], 1), vec![1, 2, 3, 4]);
}

#[test]
fn reading_back_tells_what_it_found() {
    let mut q = MessageQueue::new(1, Some(DiskQueue::new(1024, 1024)));
    assert_eq!(q.read_disk(b"").unwrap(), false);
    q.put(msg(1, b"a")).unwrap();
    q.put(msg(2, b"b")).unwrap();
    let writes = q.take_disk_writes();
    assert_eq!(writes.len(), 1);
    assert_eq!((writes[0].file_num, writes[0].offset), (0, 0));
    let mut segment = writes[0].record.clone();
    segment.extend_from_slice(&[0, 0, 0, 3, 1, 2, 3]);
    assert_eq!(q.backend_depth(), 1);
    assert_eq!(q.read_disk(&segment[..10]).unwrap(), false);
    assert_eq!(q.backend_depth(), 1);
    assert_eq!(q.read_disk(&segment).unwrap(), true);
    assert_eq!((q.depth(), q.backend_depth()), (2, 0));
    assert_eq!(q.read_disk(&segment).unwrap(), false);

    let mut broken = MessageQueue::new(0, Some(DiskQueue::new(1024, 1024)));
    broken.put(msg(3, b"c")).unwrap();
    assert!(matches!(broken.read_disk(&[0, 0, 0, 3, 1, 2, 3]), Err(NsqError::Protocol(_))));
    assert_eq!((broken.depth(), broken.backend_depth()), (0, 0));
    let without = &mut MessageQueue::new(1, None);
    assert_eq!(without.read_disk(&segment).unwrap(), false);
}

#[test]
fn records_that_were_not_written_are_given_up() {
    let mut disk = DiskQueue::new(1024, 1024);
    let first = disk.put(b"aaaa").unwrap();
    let second = disk.put(b"bb").unwrap();
    let third = disk.put(b"c").unwrap();
    assert_eq!((first.offset, second.offset, third.offset), (0, 8, 14));
    assert!(!disk.rewind(0, 8, 4));
    assert!(!disk.rewind(0, 20, 1));
    assert!(!disk.rewind(1, 0, 1));
    assert_eq!(disk.depth(), 3);
    assert!(disk.rewind(second.file_num, second.offset, 2));
    assert_eq!(disk.depth(), 1);
    let again = disk.put(b"dd").unwrap();
    assert_eq!((again.file_num, again.offset), (0, 8));
    assert!(matches!(disk.get(&first.record), DiskRead::Record(data) if data == b"aaaa".to_vec()));
    assert!(!disk.rewind(0, 0, 1));
    assert!(disk.rewind(0, 8, 1));
    assert_eq!(disk.depth(), 0);

    let mut q = MessageQueue::new(0, Some(DiskQueue::new(1024, 1024)));
    q.put(msg(1, b"a")).unwrap();
    q.put(msg(2, b"b")).unwrap();
    let handed = q.take_disk_writes();
    q.put(msg(3, b"c")).unwrap();
    assert_eq!(q.backend_depth(), 3);
    assert!(!q.give_up_disk_writes(handed[1].file_num, handed[1].offset, 5));
    assert!(q.give_up_disk_writes(handed[1].file_num, handed[1].offset, 1));
    assert_eq!(q.backend_depth(), 1);
    assert!(q.take_disk_writes().is_empty());
    assert_eq!(q.stats().total_messages, 3);
    let next = {
        q.put(msg(4, b"d")).unwrap();
        q.take_disk_writes()
    };
    assert_eq!((next[0].file_num, next[0].offset), (handed[1].file_num, handed[1].offset));
    let mut memory_only = MessageQueue::new(4, None);
    assert!(!memory_only.give_up_disk_writes(0, 0, 0));
}

#[test]
fn the_first_channel_takes_the_backlog_over_with_its_disk() {
    let mut t = Topic::new_at("t".to_string(), 1, Some(DiskQueue::new(1024, 1024)), 0).unwrap();
    t.publish_with_ids(msg(1, b"a"), &Vec::new()).unwrap();
    t.publish_with_ids(msg(2, b"b"), &Vec::new()).unwrap();
    assert_eq!(t.depth(), 1);
    let written = t.take_backlog_disk_writes();
    assert_eq!(written.len(), 1);
    assert_eq!(written[0].offset, 0);
    t.publish_with_ids(msg(3, b"c"), &Vec::new()).unwrap();
    assert!(!t.give_up_backlog_disk_writes(0, 0, 9));

    t.add_channel_at("first".to_string(), 5).unwrap();
    assert_eq!(t.depth(), 0);
    assert!(t.take_backlog_disk_writes().is_empty());
    let first = t.get_channel("first").unwrap();
    assert_eq!((first.depth(), first.queue().backend_depth()), (1, 2));
    assert_eq!(first.stats().message_count, 3);
    let still_to_write = t.take_disk_writes("first");
    assert_eq!(still_to_write.len(), 1);
    assert_eq!(still_to_write[0].offset, written[0].record.len() as u64);

    let mut segment = written[0].record.clone();
    segment.extend_from_slice(&still_to_write[0].record);
    assert_eq!(t.read_disk("first", &segment).unwrap(), true);
    assert_eq!(t.read_disk("first", &segment).unwrap(), true);
    assert_eq!(t.read_disk("first", &segment).unwrap(), false);
    t.apply("first", ChannelOp::Subscribe(subscriber(1, 3)), 9).unwrap();
    let bodies: Vec<Vec<u8>> = (0..3)
        .map(|_| t.apply("first", ChannelOp::Dispatch, 9).unwrap().unwrap().message.body)
        .collect();
    assert_eq!(bodies, vec![b"a".to_vec(), b"b".to_vec(), b"c".to_vec()]);

    t.add_channel_at("second".to_string(), 6).unwrap();
    let second = t.get_channel("second").unwrap();
    assert_eq!((second.depth(), second.queue().backend_depth()), (0, 0));
    t.publish_with_ids(msg(4, b"d"), &vec![MessageId { hi: 9, lo: 9 }]).unwrap();
    assert_eq!(t.depth(), 0);
}

#[test]
fn memory_is_read_before_disk() {
    let mut q = MessageQueue::new(1, Some(DiskQueue::new(1024, 1024)));
    assert_eq!(q.next_disk_read(), None);
    q.put(msg(1, b"a")).unwrap();
    q.put(msg(2, b"b")).unwrap();
    assert_eq!(q.next_disk_read(), None);
    q.get().unwrap().unwrap();
    assert_eq!(q.next_disk_read(), Some(0));
    let segment = q.take_disk_writes()[0].record.clone();
    assert_eq!(q.read_disk(&segment).unwrap(), true);
    assert_eq!(q.next_disk_read(), None);
    q.get().unwrap().unwrap();
    assert_eq!(q.next_disk_read(), None);
    assert_eq!(MessageQueue::new(1, None).next_disk_read(), None);
}

#[test]
fn one_message_moves_at_a_time() {
    let mut q = MessageQueue::new(10, None);
    for n in 1..=3u64 {
        q.mark_in_flight_at(msg(n, b"m"), client(1), 100, 0).unwrap();
    }
    q.mark_in_flight_at(msg(2, b"m"), client(2), 100, 5).unwrap();
    assert_eq!(q.in_flight_count(), 3);
    q.finish(MessageId { hi: 0, lo: 1 }).unwrap();
    assert_eq!((q.depth(), q.in_flight_count(), q.deferred_count()), (0, 2, 0));
    q.requeue_at(MessageId { hi: 0, lo: 2 }, 0, 10).unwrap();
    assert_eq!((q.depth(), q.in_flight_count(), q.deferred_count()), (1, 1, 0));
    q.requeue_at(MessageId { hi: 0, lo: 3 }, 50, 10).unwrap();
    assert_eq!((q.depth(), q.in_flight_count(), q.deferred_count()), (1, 0, 1));
    q.mark_in_flight_at(msg(3, b"m"), client(1), 100, 20).unwrap();
    q.defer_at(MessageId { hi: 0, lo: 3 }, 70, 20).unwrap();
    assert_eq!((q.depth(), q.in_flight_count(), q.deferred_count()), (1, 0, 1));
    assert!(q.process_deferred_at(89).unwrap().is_empty());
    assert_eq!(q.process_deferred_at(90).unwrap().len(), 1);
}
