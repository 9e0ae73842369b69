//! Messages and their wire form: a 16-byte identifier, a 64-bit timestamp in
//! nanoseconds, a 16-bit attempt counter and the body.

use crate::clock::now_nanos;
use crate::errors::ProtocolError;
use crate::wire::{
    append_bytes, be_u16, be_u64, copy_range, lemma_u16_roundtrip, lemma_u64_roundtrip, put_u16,
    put_u64, read_u16, read_u64, u16_from_be, u64_from_be,
};
use vstd::prelude::*;
use vstd::string::*;

verus! {

/// The bytes of a message before its body.
pub const MESSAGE_HEADER_LEN: usize = 26;

/// The bytes of a message identifier.
pub const MESSAGE_ID_LEN: usize = 16;

/// A 128-bit message identifier, as its high and low halves.
#[derive(Debug, Clone, Copy, PartialEq, Eq, Hash, Structural)]
pub struct MessageId {
    pub hi: u64,
    pub lo: u64,
}

/// The sixteen bytes of an identifier, most significant first.
pub open spec fn id_bytes(id: MessageId) -> Seq<u8> {
    be_u64(id.hi) + be_u64(id.lo)
}

/// The identifier whose bytes are the first sixteen of `b`.
pub open spec fn id_from_bytes(b: Seq<u8>) -> MessageId
    recommends
        b.len() >= 16,
{
    MessageId { hi: u64_from_be(b.subrange(0, 8)), lo: u64_from_be(b.subrange(8, 16)) }
}

/// Reading back the bytes of an identifier gives the identifier.
pub proof fn lemma_id_roundtrip(id: MessageId)
    ensures
        id_bytes(id).len() == 16,
        id_from_bytes(id_bytes(id)) == id,
{
    lemma_u64_roundtrip(id.hi);
    lemma_u64_roundtrip(id.lo);
    assert(id_bytes(id).subrange(0, 8) =~= be_u64(id.hi));
    assert(id_bytes(id).subrange(8, 16) =~= be_u64(id.lo));
}

/// Calls `uuid::Uuid::new_v4` and `Uuid::as_u64_pair`: the high and low
/// halves of a random version-4 UUID. Nothing is claimed of the value: it
/// comes from the operating system's random source. (`new_v4` panics where
/// that source fails; uuid offers no other way to draw one.)
#[verifier::external_body]
fn random_uuid_pair() -> (u64, u64) {
    uuid::Uuid::new_v4().as_u64_pair()
}

impl MessageId {
    /// A fresh random identifier.
    pub fn generate() -> MessageId {
        let pair = random_uuid_pair();
        MessageId { hi: pair.0, lo: pair.1 }
    }

    /// The sixteen bytes of the identifier.
    pub fn to_bytes(&self) -> (out: Vec<u8>)
        ensures
            out@ == id_bytes(*self),
            out@.len() == MESSAGE_ID_LEN,
    {
        let mut out: Vec<u8> = Vec::new();
        put_u64(&mut out, self.hi);
        put_u64(&mut out, self.lo);
        proof {
            assert(out@ =~= id_bytes(*self));
        }
        out
    }

    /// Reads an identifier: `Some` exactly when `bytes` holds sixteen bytes.
    pub fn from_slice(bytes: &[u8]) -> (res: Option<MessageId>)
        ensures
            res == if bytes@.len() == MESSAGE_ID_LEN {
                Some(id_from_bytes(bytes@))
            } else {
                None
            },
    {
        if bytes.len() != MESSAGE_ID_LEN {
            return None;
        }
        let hi = read_u64(bytes, 0);
        let lo = read_u64(bytes, 8);
        Some(MessageId { hi, lo })
    }
}

/// A message held or delivered by the broker.
#[derive(Debug)]
pub struct Message {
    /// Identifier, unique within one broker process.
    pub id: MessageId,
    /// Creation time, in nanoseconds since the Unix epoch.
    pub timestamp: u64,
    /// How many times the message was redelivered.
    pub attempts: u16,
    /// The payload.
    pub body: Vec<u8>,
}

/// A message as a mathematical value.
pub struct MessageView {
    pub id: MessageId,
    pub timestamp: u64,
    pub attempts: u16,
    pub body: Seq<u8>,
}

impl View for Message {
    type V = MessageView;

    open spec fn view(&self) -> MessageView {
        MessageView {
            id: self.id,
            timestamp: self.timestamp,
            attempts: self.attempts,
            body: self.body@,
        }
    }
}

/// A message without content.
pub open spec fn blank_message() -> MessageView {
    MessageView { id: MessageId { hi: 0, lo: 0 }, timestamp: 0, attempts: 0, body: Seq::empty() }
}

/// The wire form of a message: identifier, timestamp, attempts, body.
pub open spec fn message_bytes(m: MessageView) -> Seq<u8> {
    id_bytes(m.id) + be_u64(m.timestamp) + be_u16(m.attempts) + m.body
}

/// What `data` holds as a message: `None` where it is shorter than the
/// 26-byte header; otherwise every byte after the header is body.
pub open spec fn parse_message(data: Seq<u8>) -> Option<MessageView> {
    if data.len() < MESSAGE_HEADER_LEN {
        None
    } else {
        Some(
            MessageView {
                id: id_from_bytes(data.subrange(0, 16)),
                timestamp: u64_from_be(data.subrange(16, 24)),
                attempts: u16_from_be(data.subrange(24, 26)),
                body: data.subrange(26, data.len() as int),
            },
        )
    }
}

/// The size of a message on the wire.
pub open spec fn message_wire_len(m: MessageView) -> nat {
    MESSAGE_HEADER_LEN as nat + m.body.len()
}

/// The size of a message on the wire as a machine number: `usize::MAX` where
/// it does not fit.
pub open spec fn message_size(m: MessageView) -> usize {
    if message_wire_len(m) <= usize::MAX {
        message_wire_len(m) as usize
    } else {
        usize::MAX
    }
}

/// Decoding the wire form of a message gives the message back, and the wire
/// form is 26 bytes longer than the body.
pub proof fn lemma_message_roundtrip(m: MessageView)
    ensures
        message_bytes(m).len() == message_wire_len(m),
        parse_message(message_bytes(m)) == Some(m),
{
    let data = message_bytes(m);
    lemma_id_roundtrip(m.id);
    lemma_u64_roundtrip(m.timestamp);
    lemma_u16_roundtrip(m.attempts);
    assert(data.subrange(0, 16) =~= id_bytes(m.id));
    assert(data.subrange(16, 24) =~= be_u64(m.timestamp));
    assert(data.subrange(24, 26) =~= be_u16(m.attempts));
    assert(data.subrange(26, data.len() as int) =~= m.body);
}

/// The wire form of a message determines the message: encoding what was
/// decoded gives the same bytes.
pub proof fn lemma_message_bytes_roundtrip(data: Seq<u8>)
    requires
        data.len() >= MESSAGE_HEADER_LEN,
    ensures
        message_bytes(parse_message(data)->Some_0) == data,
{
    let m = parse_message(data)->Some_0;
    let a = data.subrange(0, 4);
    let b = data.subrange(4, 8);
    let c = data.subrange(8, 12);
    let d = data.subrange(12, 16);
    let e = data.subrange(16, 20);
    let f = data.subrange(20, 24);
    crate::wire::lemma_u32_bytes_roundtrip(a);
    crate::wire::lemma_u32_bytes_roundtrip(b);
    crate::wire::lemma_u32_bytes_roundtrip(c);
    crate::wire::lemma_u32_bytes_roundtrip(d);
    crate::wire::lemma_u32_bytes_roundtrip(e);
    crate::wire::lemma_u32_bytes_roundtrip(f);
    let idb = data.subrange(0, 16);
    assert(idb.subrange(0, 8).subrange(0, 4) =~= a);
    assert(idb.subrange(0, 8).subrange(4, 8) =~= b);
    assert(idb.subrange(8, 16).subrange(0, 4) =~= c);
    assert(idb.subrange(8, 16).subrange(4, 8) =~= d);
    let tsb = data.subrange(16, 24);
    assert(tsb.subrange(0, 4) =~= e);
    assert(tsb.subrange(4, 8) =~= f);
    let wa = crate::wire::u32_from_be(a) as int;
    let wb = crate::wire::u32_from_be(b) as int;
    assert((wa * 0x1_0000_0000 + wb) / 0x1_0000_0000 == wa);
    assert((wa * 0x1_0000_0000 + wb) % 0x1_0000_0000 == wb);
    let wc = crate::wire::u32_from_be(c) as int;
    let wd = crate::wire::u32_from_be(d) as int;
    assert((wc * 0x1_0000_0000 + wd) / 0x1_0000_0000 == wc);
    assert((wc * 0x1_0000_0000 + wd) % 0x1_0000_0000 == wd);
    let we = crate::wire::u32_from_be(e) as int;
    let wf = crate::wire::u32_from_be(f) as int;
    assert((we * 0x1_0000_0000 + wf) / 0x1_0000_0000 == we);
    assert((we * 0x1_0000_0000 + wf) % 0x1_0000_0000 == wf);
    assert(be_u64(m.id.hi) =~= a + b);
    assert(be_u64(m.id.lo) =~= c + d);
    assert(be_u64(m.timestamp) =~= e + f);
    let g = data.subrange(24, 26);
    assert(be_u16(m.attempts) =~= g);
    assert(message_bytes(m) =~= data);
}

impl Clone for Message {
    fn clone(&self) -> (copy: Message)
        ensures
            copy@ == self@,
    {
        let body = copy_range(self.body.as_slice(), 0, self.body.len());
        proof {
            assert(body@ =~= self.body@);
        }
        Message { id: self.id, timestamp: self.timestamp, attempts: self.attempts, body }
    }
}

impl Message {
    /// A new message with a fresh random identifier, the current time as its
    /// timestamp, and no attempts.
    pub fn new(body: Vec<u8>) -> (m: Message)
        ensures
            m.attempts == 0,
            m.body == body,
    {
        Message::with_metadata(MessageId::generate(), now_nanos(), 0, body)
    }

    /// A message with the given identifier, timestamp, attempts and body.
    pub fn with_metadata(id: MessageId, timestamp: u64, attempts: u16, body: Vec<u8>) -> (m:
        Message)
        ensures
            m.id == id,
            m.timestamp == timestamp,
            m.attempts == attempts,
            m.body == body,
    {
        Message { id, timestamp, attempts, body }
    }

    /// The wire form of the message.
    pub fn to_bytes(&self) -> (out: Vec<u8>)
        ensures
            out@ == message_bytes(self@),
            out@.len() == message_wire_len(self@),
    {
        let mut out: Vec<u8> = Vec::new();
        put_u64(&mut out, self.id.hi);
        put_u64(&mut out, self.id.lo);
        put_u64(&mut out, self.timestamp);
        put_u16(&mut out, self.attempts);
        append_bytes(&mut out, self.body.as_slice());
        proof {
            assert(out@ =~= message_bytes(self@));
            lemma_message_roundtrip(self@);
        }
        out
    }

    /// Reads a message. Data shorter than the 26-byte header is an
    /// invalid-message error; anything else is a message.
    pub fn from_bytes(data: &[u8]) -> (res: Result<Message, ProtocolError>)
        ensures
            match parse_message(data@) {
                Some(m) => res is Ok && res->Ok_0@ == m,
                None => res matches Err(ProtocolError::InvalidMessage(text)) && text@
                    == "Message too short"@,
            },
    {
        let n = data.len();
        if n < MESSAGE_HEADER_LEN {
            return Err(ProtocolError::InvalidMessage(String::from_str("Message too short")));
        }
        let hi = read_u64(data, 0);
        let lo = read_u64(data, 8);
        let timestamp = read_u64(data, 16);
        let attempts = read_u16(data, 24);
        let body = copy_range(data, MESSAGE_HEADER_LEN, n);
        proof {
            let idb = data@.subrange(0, 16);
            assert(idb.subrange(0, 8) =~= data@.subrange(0, 8));
            assert(idb.subrange(8, 16) =~= data@.subrange(8, 16));
        }
        Ok(Message { id: MessageId { hi, lo }, timestamp, attempts, body })
    }

    /// The size of the message on the wire: 26 bytes and the body;
    /// `usize::MAX` where that does not fit.
    pub fn size(&self) -> (n: usize)
        ensures
            n == message_size(self@),
    {
        self.body.len().saturating_add(MESSAGE_HEADER_LEN)
    }
}

/// Counters kept by a message queue.
#[derive(Debug, Clone, Copy, PartialEq, Eq, Structural)]
pub struct MessageStats {
    pub total_messages: u64,
    pub total_bytes: u64,
    pub messages_in_flight: u64,
    pub messages_deferred: u64,
    pub messages_requeued: u64,
    pub messages_timed_out: u64,
}

} // verus!
