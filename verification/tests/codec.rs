use nsq::codec::{CommandDecoder, CommandEncoder, MessageEncoder, NsqDecoder, NsqEncoder};
use nsq::command::{Command, Extent, Verb};
use nsq::errors::ProtocolError;
use nsq::frame::{Frame, FrameType};
use nsq::message::{Message, MessageId};
use nsq::protocol::{heartbeat_frame, is_magic_v2};

#[test]
fn test_frame_codec() {
    let original_frame = Frame::new(FrameType::Message, b"test message".to_vec());
    let encoded = original_frame.to_bytes();

    let decoder = NsqDecoder::new();
    let mut src = encoded.clone();
    let decoded = decoder.decode(&mut src).unwrap().unwrap();

    assert_eq!(decoded.frame_type, FrameType::Message);
    assert_eq!(decoded.body, b"test message".to_vec());
}

#[test]
fn test_message_codec() {
    let original_message = Message::new(b"test body".to_vec());
    let encoded = original_message.to_bytes();

    let decoded = Message::from_bytes(&encoded).unwrap();

    assert_eq!(decoded.body, b"test body".to_vec());
    assert_eq!(decoded.attempts, 0);
}

#[test]
fn frame_wire_form_is_size_type_body() {
    let frame = Frame::new(FrameType::Error, b"E_INVALID".to_vec());
    let bytes = frame.to_bytes();
    let mut expected = vec![0u8, 0, 0, 10, 1];
    expected.extend_from_slice(b"E_INVALID");
    assert_eq!(bytes, expected);
    assert_eq!(frame.total_size(), 14);
}

#[test]
fn frame_type_codes() {
    assert_eq!(FrameType::Response.code(), 0);
    assert_eq!(FrameType::Error.code(), 1);
    assert_eq!(FrameType::Message.code(), 2);
    assert_eq!(FrameType::try_from(0).unwrap(), FrameType::Response);
    assert_eq!(FrameType::try_from(1).unwrap(), FrameType::Error);
    assert_eq!(FrameType::try_from(2).unwrap(), FrameType::Message);
    assert_eq!(FrameType::try_from(3), Err(ProtocolError::InvalidFrameType(3)));
}

#[test]
fn frame_from_bytes_rejects_bad_input() {
    assert_eq!(Frame::from_bytes(&[0, 0, 0]).unwrap_err(), ProtocolError::InvalidFrameSize(3));
    assert_eq!(
        Frame::from_bytes(&[0, 0, 0, 0, 0]).unwrap_err(),
        ProtocolError::InvalidFrameSize(0)
    );
    assert_eq!(
        Frame::from_bytes(&[0, 0, 0, 2, 9, 1]).unwrap_err(),
        ProtocolError::InvalidFrameType(9)
    );
    assert_eq!(
        Frame::from_bytes(&[0, 0, 0, 5, 0, 1]).unwrap_err(),
        ProtocolError::InvalidFrameSize(2)
    );
    let ok = Frame::from_bytes(&[0, 0, 0, 2, 0, 7, 99]).unwrap();
    assert_eq!(ok.frame_type, FrameType::Response);
    assert_eq!(ok.body, vec![7u8]);
}

#[test]
fn decoder_waits_for_whole_frames() {
    let decoder = NsqDecoder::new();
    assert_eq!(decoder.max_frame_size(), 5 * 1024 * 1024);
    let mut src = vec![0u8, 0, 0, 4, 2, b'a'];
    assert!(decoder.decode(&mut src).unwrap().is_none());
    assert_eq!(src, vec![0u8, 0, 0, 4, 2, b'a']);
    src.extend_from_slice(b"bcXY");
    let frame = decoder.decode(&mut src).unwrap().unwrap();
    assert_eq!(frame.frame_type, FrameType::Message);
    assert_eq!(frame.body, b"abc".to_vec());
    assert_eq!(src, b"XY".to_vec());
    assert!(decoder.decode(&mut src).unwrap().is_none());
}

#[test]
fn decoder_rejects_oversize_frames() {
    let decoder = NsqDecoder::with_max_frame_size(8);
    let mut src = vec![0u8, 0, 0, 9, 0, 1, 2];
    assert_eq!(decoder.decode(&mut src).unwrap_err(), ProtocolError::InvalidFrameSize(9));
    assert_eq!(src.len(), 7);
    let mut ok = vec![0u8, 0, 0, 8, 0, 1, 2, 3, 4, 5, 6, 7];
    assert_eq!(decoder.decode(&mut ok).unwrap().unwrap().body.len(), 7);
}

#[test]
fn encoders_append() {
    let mut dst = vec![0xffu8];
    NsqEncoder.encode(Frame::new(FrameType::Response, b"OK".to_vec()), &mut dst).unwrap();
    assert_eq!(dst, vec![0xff, 0, 0, 0, 3, 0, b'O', b'K']);

    let mut dst = Vec::new();
    CommandEncoder.encode(Command::Nop, &mut dst).unwrap();
    assert_eq!(dst, b"NOP\n".to_vec());

    let id = MessageId { hi: 1, lo: 2 };
    let mut dst = Vec::new();
    MessageEncoder
        .encode(Message::with_metadata(id, 3, 4, b"x".to_vec()), &mut dst)
        .unwrap();
    assert_eq!(dst.len(), 27);
}

#[test]
fn message_wire_form() {
    let id = MessageId { hi: 0x0102030405060708, lo: 0x090a0b0c0d0e0f10 };
    let message = Message::with_metadata(id, 0x1122334455667788, 0x0203, b"hi".to_vec());
    let bytes = message.to_bytes();
    let expected: Vec<u8> = vec![
        1, 2, 3, 4, 5, 6, 7, 8, 9, 10, 11, 12, 13, 14, 15, 16, 0x11, 0x22, 0x33, 0x44, 0x55,
        0x66, 0x77, 0x88, 2, 3, b'h', b'i',
    ];
    assert_eq!(bytes, expected);
    assert_eq!(message.size(), 28);
    assert_eq!(bytes.len(), 26 + 2);
    let back = Message::from_bytes(&bytes).unwrap();
    assert_eq!(back.id, id);
    assert_eq!(back.timestamp, 0x1122334455667788);
    assert_eq!(back.attempts, 0x0203);
    assert_eq!(back.body, b"hi".to_vec());
}

#[test]
fn message_roundtrip_with_empty_body() {
    let id = MessageId { hi: u64::MAX, lo: 0 };
    let message = Message::with_metadata(id, 0, u16::MAX, Vec::new());
    let back = Message::from_bytes(&message.to_bytes()).unwrap();
    assert_eq!(back.id, id);
    assert_eq!(back.attempts, u16::MAX);
    assert!(back.body.is_empty());
    assert_eq!(message.size(), 26);
}

#[test]
fn message_too_short() {
    let err = Message::from_bytes(&[0u8; 25]).unwrap_err();
    assert_eq!(err, ProtocolError::InvalidMessage("Message too short".to_string()));
    assert!(Message::from_bytes(&[0u8; 26]).is_ok());
}

#[test]
fn new_messages_get_fresh_ids_and_the_time() {
    let a = Message::new(b"a".to_vec());
    let b = Message::new(b"b".to_vec());
    assert_ne!(a.id, b.id);
    assert_eq!(a.id.to_bytes().len(), 16);
    assert!(a.timestamp > 1_600_000_000_000_000_000);
    assert_eq!(a.attempts, 0);
}

#[test]
fn message_id_bytes() {
    let id = MessageId { hi: 0x0102030405060708, lo: 0x1112131415161718 };
    let bytes = id.to_bytes();
    assert_eq!(
        bytes,
        vec![1, 2, 3, 4, 5, 6, 7, 8, 0x11, 0x12, 0x13, 0x14, 0x15, 0x16, 0x17, 0x18]
    );
    assert_eq!(MessageId::from_slice(&bytes), Some(id));
    assert_eq!(MessageId::from_slice(&bytes[..15]), None);
    assert_eq!(MessageId::from_slice(&[0u8; 17]), None);
}

fn roundtrip(command: Command) {
    let bytes = command.to_bytes().unwrap();
    let back = Command::from_bytes(&bytes).unwrap();
    assert_eq!(back, command);
}

#[test]
fn command_roundtrip_every_form() {
    roundtrip(Command::Pub { topic: "t1".to_string(), body: b"hello".to_vec() });
    roundtrip(Command::Pub { topic: "t1".to_string(), body: Vec::new() });
    roundtrip(Command::Mpub {
        topic: "t1".to_string(),
        bodies: vec![b"a".to_vec(), Vec::new(), b"ccc\n".to_vec()],
    });
    roundtrip(Command::Mpub { topic: "t1".to_string(), bodies: Vec::new() });
    roundtrip(Command::Dpub { topic: "t1".to_string(), delay: 1500, body: b"later".to_vec() });
    roundtrip(Command::Sub { topic: "topic.a".to_string(), channel: "chan_b-1".to_string() });
    roundtrip(Command::Rdy { count: 0 });
    roundtrip(Command::Rdy { count: u32::MAX });
    roundtrip(Command::Fin { message_id: b"0123456789abcdef".to_vec() });
    roundtrip(Command::Req { message_id: b"0123456789abcdef".to_vec(), timeout: u64::MAX });
    roundtrip(Command::Touch { message_id: vec![0xff, 0x00, 0x80, 0x01] });
    roundtrip(Command::Identify { data: b"{\"heartbeat_interval\":1000}".to_vec() });
    roundtrip(Command::Auth { secret: "s3cret".to_string() });
    roundtrip(Command::Nop);
    roundtrip(Command::Close);
}

#[test]
fn command_wire_forms() {
    let pub_bytes =
        Command::Pub { topic: "t".to_string(), body: b"ab".to_vec() }.to_bytes().unwrap();
    assert_eq!(pub_bytes, b"PUB t\n\x00\x00\x00\x02ab".to_vec());
    let mpub = Command::Mpub { topic: "t".to_string(), bodies: vec![b"a".to_vec(), b"bc".to_vec()] };
    assert_eq!(
        mpub.to_bytes().unwrap(),
        b"MPUB t\n\x00\x00\x00\x02\x00\x00\x00\x01a\x00\x00\x00\x02bc".to_vec()
    );
    let dpub = Command::Dpub { topic: "t".to_string(), delay: 250, body: b"x".to_vec() };
    assert_eq!(dpub.to_bytes().unwrap(), b"DPUB t 250\n\x00\x00\x00\x01x".to_vec());
    let sub = Command::Sub { topic: "t".to_string(), channel: "c".to_string() };
    assert_eq!(sub.to_bytes().unwrap(), b"SUB t c\n".to_vec());
    assert_eq!(Command::Rdy { count: 2500 }.to_bytes().unwrap(), b"RDY 2500\n".to_vec());
    assert_eq!(Command::Fin { message_id: b"id".to_vec() }.to_bytes().unwrap(), b"FIN id\n".to_vec());
    assert_eq!(
        Command::Req { message_id: b"id".to_vec(), timeout: 0 }.to_bytes().unwrap(),
        b"REQ id 0\n".to_vec()
    );
    assert_eq!(
        Command::Touch { message_id: b"id".to_vec() }.to_bytes().unwrap(),
        b"TOUCH id\n".to_vec()
    );
    assert_eq!(
        Command::Identify { data: b"{}".to_vec() }.to_bytes().unwrap(),
        b"IDENTIFY\n\x00\x00\x00\x02{}".to_vec()
    );
    assert_eq!(
        Command::Auth { secret: "pw".to_string() }.to_bytes().unwrap(),
        b"AUTH\n\x00\x00\x00\x02pw".to_vec()
    );
    assert_eq!(Command::Nop.to_bytes().unwrap(), b"NOP\n".to_vec());
    assert_eq!(Command::Close.to_bytes().unwrap(), b"CLS\n".to_vec());
}

fn is_invalid(bytes: &[u8]) -> bool {
    matches!(Command::from_bytes(bytes), Err(ProtocolError::InvalidCommand(_)))
}

#[test]
fn command_from_bytes_rejects_malformed_input() {
    assert!(is_invalid(b"NOP"));
    assert!(is_invalid(b"\n"));
    assert!(is_invalid(b"   \n"));
    assert!(is_invalid(b"BOGUS\n"));
    assert!(is_invalid(b"nop\n"));
    assert!(is_invalid(b"NOP extra\n"));
    assert!(is_invalid(b"PUB\n\x00\x00\x00\x00"));
    assert!(is_invalid(b"PUB t\n\x00\x00"));
    assert!(is_invalid(b"PUB t\n\x00\x00\x00\x05ab"));
    assert!(is_invalid(b"PUB \xff\xfe\n\x00\x00\x00\x00"));
    assert!(is_invalid(b"MPUB t\n\x00\x00\x00\x02\x00\x00\x00\x01a"));
    assert!(is_invalid(b"DPUB t\n\x00\x00\x00\x00"));
    assert!(is_invalid(b"DPUB t soon\n\x00\x00\x00\x00"));
    assert!(is_invalid(b"SUB t\n"));
    assert!(is_invalid(b"SUB t c d\n"));
    assert!(is_invalid(b"RDY\n"));
    assert!(is_invalid(b"RDY x\n"));
    assert!(is_invalid(b"RDY 4294967296\n"));
    assert!(is_invalid(b"RDY -1\n"));
    assert!(is_invalid(b"FIN\n"));
    assert!(is_invalid(b"REQ id\n"));
    assert!(is_invalid(b"REQ id 18446744073709551616\n"));
    assert!(is_invalid(b"TOUCH\n"));
    assert!(is_invalid(b"AUTH\n\x00\x00\x00\x02\xff\xfe"));
    assert!(is_invalid(b"IDENTIFY\n\x00\x00"));
}

#[test]
fn command_from_bytes_accepts_lenient_spacing_and_trailing_bytes() {
    assert_eq!(Command::from_bytes(b"  NOP \t\nrest").unwrap(), Command::Nop);
    assert_eq!(
        Command::from_bytes(b"SUB   t \t c\r\n").unwrap(),
        Command::Sub { topic: "t".to_string(), channel: "c".to_string() }
    );
    assert_eq!(Command::from_bytes(b"RDY +7\n").unwrap(), Command::Rdy { count: 7 });
    assert_eq!(Command::from_bytes(b"RDY 007\n").unwrap(), Command::Rdy { count: 7 });
    assert_eq!(
        Command::from_bytes(b"RDY 4294967295\n").unwrap(),
        Command::Rdy { count: u32::MAX }
    );
    assert_eq!(
        Command::from_bytes(b"PUB t\n\x00\x00\x00\x01abc").unwrap(),
        Command::Pub { topic: "t".to_string(), body: b"a".to_vec() }
    );
}

#[test]
fn identify_needs_json() {
    let bad = Command::from_bytes(b"IDENTIFY\n\x00\x00\x00\x05{oops");
    assert!(matches!(bad, Err(ProtocolError::Serialization(_))));
    let good = Command::from_bytes(b"IDENTIFY\n\x00\x00\x00\x07{\"a\":1}").unwrap();
    assert_eq!(good, Command::Identify { data: b"{\"a\":1}".to_vec() });
    let not_same = Command::from_bytes(b"IDENTIFY\n\x00\x00\x00\x02[]").unwrap();
    assert_eq!(not_same, Command::Identify { data: b"[]".to_vec() });
}

#[test]
fn an_id_with_a_newline_does_not_survive_the_wire() {
    let command = Command::Fin { message_id: b"ab\ncd".to_vec() };
    let bytes = command.to_bytes().unwrap();
    let back = Command::from_bytes(&bytes).unwrap();
    assert_eq!(back, Command::Fin { message_id: b"ab".to_vec() });
    assert_ne!(back, command);
}

#[test]
fn command_names() {
    assert_eq!(Command::Nop.name(), "NOP");
    assert_eq!(Command::Close.name(), "CLS");
    assert_eq!(Command::Rdy { count: 1 }.name(), "RDY");
    assert_eq!(Command::Pub { topic: "t".to_string(), body: vec![] }.name(), "PUB");
    assert_eq!(Command::Mpub { topic: "t".to_string(), bodies: vec![] }.name(), "MPUB");
    assert_eq!(Command::Dpub { topic: "t".to_string(), delay: 0, body: vec![] }.name(), "DPUB");
    assert_eq!(Command::Sub { topic: "t".to_string(), channel: "c".to_string() }.name(), "SUB");
    assert_eq!(Command::Fin { message_id: vec![] }.name(), "FIN");
    assert_eq!(Command::Req { message_id: vec![], timeout: 0 }.name(), "REQ");
    assert_eq!(Command::Touch { message_id: vec![] }.name(), "TOUCH");
    assert_eq!(Command::Identify { data: vec![] }.name(), "IDENTIFY");
    assert_eq!(Command::Auth { secret: String::new() }.name(), "AUTH");
    assert_eq!(Command::Touch { message_id: vec![] }.verb(), Verb::Touch);
}

#[test]
fn heartbeat_and_magic() {
    let frame = heartbeat_frame();
    assert_eq!(frame.frame_type, FrameType::Response);
    assert_eq!(frame.body, b"_heartbeat_".to_vec());
    assert!(is_magic_v2(b"  V2"));
    assert!(!is_magic_v2(b"  V1"));
    assert!(!is_magic_v2(b"  V2 "));
}

#[test]
fn command_extent_measures_line_and_payload() {
    assert_eq!(Command::extent(b""), Extent::Incomplete);
    assert_eq!(Command::extent(b"NOP"), Extent::Incomplete);
    assert_eq!(Command::extent(b"NOP\n"), Extent::Whole(4));
    assert_eq!(Command::extent(b"NOP\nFIN"), Extent::Whole(4));
    assert_eq!(Command::extent(b"BOGUS\n"), Extent::Malformed);
    assert_eq!(Command::extent(b"\n"), Extent::Malformed);
    assert_eq!(Command::extent(b"PUB t\n\x00\x00\x00\x02h"), Extent::Incomplete);
    assert_eq!(Command::extent(b"PUB t\n\x00\x00\x00\x02hi"), Extent::Whole(12));
    assert_eq!(Command::extent(b"PUB t\n\x00\x00"), Extent::Incomplete);
    let mpub = b"MPUB t\n\x00\x00\x00\x02\x00\x00\x00\x01a\x00\x00\x00\x02bc";
    assert_eq!(Command::extent(mpub), Extent::Whole(mpub.len()));
    assert_eq!(Command::extent(&mpub[..mpub.len() - 1]), Extent::Incomplete);
}

#[test]
fn command_decoder_takes_one_command_at_a_time() {
    let decoder = CommandDecoder::with_max_command_size(64);
    let mut buffer: Vec<u8> = b"SUB t c\nPUB t\n\x00\x00\x00\x02hiRDY 5\nFI".to_vec();
    assert_eq!(
        decoder.decode(&mut buffer).unwrap(),
        Some(Command::Sub { topic: "t".to_string(), channel: "c".to_string() })
    );
    assert_eq!(
        decoder.decode(&mut buffer).unwrap(),
        Some(Command::Pub { topic: "t".to_string(), body: b"hi".to_vec() })
    );
    assert_eq!(decoder.decode(&mut buffer).unwrap(), Some(Command::Rdy { count: 5 }));
    assert_eq!(decoder.decode(&mut buffer).unwrap(), None);
    assert_eq!(buffer, b"FI".to_vec());
}

#[test]
fn command_decoder_rejects_what_is_no_command() {
    let decoder = CommandDecoder::with_max_command_size(8);
    let mut unknown: Vec<u8> = b"BOGUS\nNOP\n".to_vec();
    assert!(matches!(decoder.decode(&mut unknown), Err(ProtocolError::InvalidCommand(_))));
    assert_eq!(unknown, b"BOGUS\nNOP\n".to_vec());
    let mut short_of_arguments: Vec<u8> = b"SUB t\nNOP\n".to_vec();
    assert!(matches!(decoder.decode(&mut short_of_arguments), Err(ProtocolError::InvalidCommand(_))));
    assert_eq!(short_of_arguments, b"NOP\n".to_vec());
    let mut endless: Vec<u8> = b"PUB topic".to_vec();
    assert_eq!(decoder.decode(&mut endless), Err(ProtocolError::InvalidFrameSize(9)));
    let mut waiting: Vec<u8> = b"PUB topi".to_vec();
    assert_eq!(decoder.decode(&mut waiting), Ok(None));
}

fn refusal_text(bytes: &[u8]) -> String {
    match Command::from_bytes(bytes) {
        Err(ProtocolError::InvalidCommand(text)) => text,
        other => panic!("no invalid-command error: {:?}", other),
    }
}

#[test]
fn invalid_commands_say_what_is_wrong() {
    assert_eq!(refusal_text(b"NOP"), "Missing newline");
    assert_eq!(refusal_text(b"\n"), "Empty command");
    assert_eq!(refusal_text(b"BOGUS\n"), "Unknown command");
    assert_eq!(refusal_text(b"PUB\n"), "Invalid PUB command");
    assert_eq!(refusal_text(b"SUB t\n"), "Invalid SUB command");
    assert_eq!(refusal_text(b"RDY many\n"), "Invalid RDY command");
    assert_eq!(refusal_text(b"REQ id\n"), "Invalid REQ command");
    assert_eq!(refusal_text(b"NOP now\n"), "Invalid NOP command");
}
