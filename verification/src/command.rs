//! Commands sent by clients: a line of whitespace-separated ASCII words
//! ended by a newline, followed for some verbs by a length-prefixed payload.

use crate::errors::ProtocolError;
use crate::text::{
    byte_rows, decimal_digits, find_byte, index_of, is_token, lemma_decimal_digits,
    lemma_decimal_roundtrip, lemma_index_of_is, lemma_split_one, lemma_split_three,
    lemma_split_two, no_spaces, parse_decimal, parse_decimal_spec, put_decimal, split_whitespace,
    split_ws, string_bytes, string_from_utf8,
};
use crate::wire::{
    append_bytes, be_u32, bytes_equal, copy_range, lemma_payload_roundtrip, lemma_u32_roundtrip,
    parse_payload, payload_bytes, put_payload, put_u32, read_payload, read_u32, u32_from_be,
};
use vstd::prelude::*;
use vstd::string::*;
use vstd::utf8::{encode_utf8, valid_utf8};

verus! {

/// A command of the client protocol.
#[derive(Debug, Clone, PartialEq, Eq)]
pub enum Command {
    /// Publish one message.
    Pub { topic: String, body: Vec<u8> },
    /// Publish several messages at once.
    Mpub { topic: String, bodies: Vec<Vec<u8>> },
    /// Publish one message for delivery after `delay` milliseconds.
    Dpub { topic: String, delay: u64, body: Vec<u8> },
    /// Subscribe to a channel of a topic.
    Sub { topic: String, channel: String },
    /// Set the number of messages the client is ready to receive.
    Rdy { count: u32 },
    /// Acknowledge a message.
    Fin { message_id: Vec<u8> },
    /// Hand a message back, for redelivery after `timeout` milliseconds.
    Req { message_id: Vec<u8>, timeout: u64 },
    /// Restart the timeout of a message in flight.
    Touch { message_id: Vec<u8> },
    /// Negotiate connection parameters; `data` is a JSON document.
    Identify { data: Vec<u8> },
    /// Authenticate with a secret.
    Auth { secret: String },
    /// Do nothing; the answer to a heartbeat.
    Nop,
    /// Close the connection.
    Close,
}

/// A command as a mathematical value; strings stand as their UTF-8 bytes.
pub enum CommandView {
    Pub { topic: Seq<u8>, body: Seq<u8> },
    Mpub { topic: Seq<u8>, bodies: Seq<Seq<u8>> },
    Dpub { topic: Seq<u8>, delay: u64, body: Seq<u8> },
    Sub { topic: Seq<u8>, channel: Seq<u8> },
    Rdy { count: u32 },
    Fin { message_id: Seq<u8> },
    Req { message_id: Seq<u8>, timeout: u64 },
    Touch { message_id: Seq<u8> },
    Identify { data: Seq<u8> },
    Auth { secret: Seq<u8> },
    Nop,
    Close,
}

impl View for Command {
    type V = CommandView;

    open spec fn view(&self) -> CommandView {
        match *self {
            Command::Pub { topic, body } => CommandView::Pub {
                topic: encode_utf8(topic@),
                body: body@,
            },
            Command::Mpub { topic, bodies } => CommandView::Mpub {
                topic: encode_utf8(topic@),
                bodies: byte_rows(bodies),
            },
            Command::Dpub { topic, delay, body } => CommandView::Dpub {
                topic: encode_utf8(topic@),
                delay,
                body: body@,
            },
            Command::Sub { topic, channel } => CommandView::Sub {
                topic: encode_utf8(topic@),
                channel: encode_utf8(channel@),
            },
            Command::Rdy { count } => CommandView::Rdy { count },
            Command::Fin { message_id } => CommandView::Fin { message_id: message_id@ },
            Command::Req { message_id, timeout } => CommandView::Req {
                message_id: message_id@,
                timeout,
            },
            Command::Touch { message_id } => CommandView::Touch { message_id: message_id@ },
            Command::Identify { data } => CommandView::Identify { data: data@ },
            Command::Auth { secret } => CommandView::Auth { secret: encode_utf8(secret@) },
            Command::Nop => CommandView::Nop,
            Command::Close => CommandView::Close,
        }
    }
}

/// The verbs of the protocol.
#[derive(Debug, Clone, Copy, PartialEq, Eq, Structural)]
pub enum Verb {
    Pub,
    Mpub,
    Dpub,
    Sub,
    Rdy,
    Fin,
    Req,
    Touch,
    Identify,
    Auth,
    Nop,
    Cls,
}

/// The ASCII word of a verb.
pub open spec fn verb_word(v: Verb) -> Seq<u8> {
    match v {
        Verb::Pub => seq![0x50u8, 0x55, 0x42],
        Verb::Mpub => seq![0x4du8, 0x50, 0x55, 0x42],
        Verb::Dpub => seq![0x44u8, 0x50, 0x55, 0x42],
        Verb::Sub => seq![0x53u8, 0x55, 0x42],
        Verb::Rdy => seq![0x52u8, 0x44, 0x59],
        Verb::Fin => seq![0x46u8, 0x49, 0x4e],
        Verb::Req => seq![0x52u8, 0x45, 0x51],
        Verb::Touch => seq![0x54u8, 0x4f, 0x55, 0x43, 0x48],
        Verb::Identify => seq![0x49u8, 0x44, 0x45, 0x4e, 0x54, 0x49, 0x46, 0x59],
        Verb::Auth => seq![0x41u8, 0x55, 0x54, 0x48],
        Verb::Nop => seq![0x4eu8, 0x4f, 0x50],
        Verb::Cls => seq![0x43u8, 0x4c, 0x53],
    }
}

/// The verb that `word` spells, if any. Verbs are written in capitals.
pub open spec fn verb_of(word: Seq<u8>) -> Option<Verb> {
    if word == verb_word(Verb::Pub) {
        Some(Verb::Pub)
    } else if word == verb_word(Verb::Mpub) {
        Some(Verb::Mpub)
    } else if word == verb_word(Verb::Dpub) {
        Some(Verb::Dpub)
    } else if word == verb_word(Verb::Sub) {
        Some(Verb::Sub)
    } else if word == verb_word(Verb::Rdy) {
        Some(Verb::Rdy)
    } else if word == verb_word(Verb::Fin) {
        Some(Verb::Fin)
    } else if word == verb_word(Verb::Req) {
        Some(Verb::Req)
    } else if word == verb_word(Verb::Touch) {
        Some(Verb::Touch)
    } else if word == verb_word(Verb::Identify) {
        Some(Verb::Identify)
    } else if word == verb_word(Verb::Auth) {
        Some(Verb::Auth)
    } else if word == verb_word(Verb::Nop) {
        Some(Verb::Nop)
    } else if word == verb_word(Verb::Cls) {
        Some(Verb::Cls)
    } else {
        None
    }
}

/// Every verb's word is a token and spells that verb alone.
pub proof fn lemma_verb_word(v: Verb)
    ensures
        is_token(verb_word(v)),
        verb_of(verb_word(v)) == Some(v),
        forall|k: int| 0 <= k < verb_word(v).len() ==> verb_word(v)[k] != 0x0a,
{
    let w = verb_word(v);
    assert(w[0] != verb_word(Verb::Pub)[0] || w[1] != verb_word(Verb::Pub)[1] || w.len() != 3
        || v == Verb::Pub);
    assert(w.len() != 4 || w[0] != verb_word(Verb::Mpub)[0] || v == Verb::Mpub);
    assert(w.len() != 4 || w[0] != verb_word(Verb::Dpub)[0] || v == Verb::Dpub);
    assert(w.len() != 3 || w[0] != verb_word(Verb::Sub)[0] || v == Verb::Sub);
    assert(w.len() != 3 || w[0] != verb_word(Verb::Rdy)[0] || w[1] != verb_word(Verb::Rdy)[1]
        || v == Verb::Rdy);
    assert(w.len() != 3 || w[0] != verb_word(Verb::Fin)[0] || v == Verb::Fin);
    assert(w.len() != 3 || w[0] != verb_word(Verb::Req)[0] || w[1] != verb_word(Verb::Req)[1]
        || v == Verb::Req);
    assert(w.len() != 5 || v == Verb::Touch);
    assert(w.len() != 8 || v == Verb::Identify);
    assert(w.len() != 4 || w[0] != verb_word(Verb::Auth)[0] || v == Verb::Auth);
    assert(w.len() != 3 || w[0] != verb_word(Verb::Nop)[0] || v == Verb::Nop);
    assert(w.len() != 3 || w[0] != verb_word(Verb::Cls)[0] || v == Verb::Cls);
}

/// Several payloads on the wire, one after the other.
pub open spec fn bodies_bytes(bodies: Seq<Seq<u8>>) -> Seq<u8>
    decreases bodies.len(),
{
    if bodies.len() == 0 {
        Seq::empty()
    } else {
        payload_bytes(bodies[0]) + bodies_bytes(bodies.drop_first())
    }
}

/// The `count` payloads at the start of `rest`, or `None` where `rest` is
/// cut short.
pub open spec fn parse_bodies(rest: Seq<u8>, count: nat) -> Option<Seq<Seq<u8>>>
    decreases count,
{
    if count == 0 {
        Some(Seq::empty())
    } else {
        match parse_payload(rest) {
            None => None,
            Some(first) => match parse_bodies(rest.skip(4 + first.len() as int), (count - 1) as nat) {
                None => None,
                Some(others) => Some(seq![first] + others),
            },
        }
    }
}

/// The payloads of a multi-publish: a count in four bytes, then that many
/// payloads.
pub open spec fn parse_counted_bodies(rest: Seq<u8>) -> Option<Seq<Seq<u8>>> {
    if rest.len() < 4 {
        None
    } else {
        parse_bodies(rest.skip(4), u32_from_be(rest.subrange(0, 4)) as nat)
    }
}

/// The first line of a command, without its newline.
pub open spec fn command_line(c: CommandView) -> Seq<u8> {
    let sp = seq![0x20u8];
    match c {
        CommandView::Pub { topic, body } => verb_word(Verb::Pub) + sp + topic,
        CommandView::Mpub { topic, bodies } => verb_word(Verb::Mpub) + sp + topic,
        CommandView::Dpub { topic, delay, body } => verb_word(Verb::Dpub) + sp + topic + sp
            + decimal_digits(delay as nat),
        CommandView::Sub { topic, channel } => verb_word(Verb::Sub) + sp + topic + sp + channel,
        CommandView::Rdy { count } => verb_word(Verb::Rdy) + sp + decimal_digits(count as nat),
        CommandView::Fin { message_id } => verb_word(Verb::Fin) + sp + message_id,
        CommandView::Req { message_id, timeout } => verb_word(Verb::Req) + sp + message_id + sp
            + decimal_digits(timeout as nat),
        CommandView::Touch { message_id } => verb_word(Verb::Touch) + sp + message_id,
        CommandView::Identify { data } => verb_word(Verb::Identify),
        CommandView::Auth { secret } => verb_word(Verb::Auth),
        CommandView::Nop => verb_word(Verb::Nop),
        CommandView::Close => verb_word(Verb::Cls),
    }
}

/// What follows the first line of a command.
pub open spec fn command_payload(c: CommandView) -> Seq<u8> {
    match c {
        CommandView::Pub { topic, body } => payload_bytes(body),
        CommandView::Mpub { topic, bodies } => be_u32(bodies.len() as u32) + bodies_bytes(bodies),
        CommandView::Dpub { topic, delay, body } => payload_bytes(body),
        CommandView::Identify { data } => payload_bytes(data),
        CommandView::Auth { secret } => payload_bytes(secret),
        _ => Seq::empty(),
    }
}

/// The wire form of a command.
pub open spec fn command_bytes(c: CommandView) -> Seq<u8> {
    command_line(c) + seq![0x0au8] + command_payload(c)
}

/// Every length of the command fits the four bytes that announce it.
pub open spec fn encodable(c: CommandView) -> bool {
    match c {
        CommandView::Pub { topic, body } => body.len() <= u32::MAX,
        CommandView::Mpub { topic, bodies } => bodies.len() <= u32::MAX && forall|i: int|
            0 <= i < bodies.len() ==> (#[trigger] bodies[i]).len() <= u32::MAX,
        CommandView::Dpub { topic, delay, body } => body.len() <= u32::MAX,
        CommandView::Identify { data } => data.len() <= u32::MAX,
        CommandView::Auth { secret } => secret.len() <= u32::MAX,
        _ => true,
    }
}

/// Whether `serde_json` reads `data` as one JSON document.
pub uninterp spec fn json_well_formed(data: Seq<u8>) -> bool;

/// Calls `serde_json::from_slice` for a `serde_json::Value` and reports
/// whether it succeeded. The contract only names the answer.
#[verifier::external_body]
pub(crate) fn json_parses(data: &[u8]) -> (ok: bool)
    ensures
        ok == json_well_formed(data@),
{
    serde_json::from_slice::<serde_json::Value>(data).is_ok()
}

/// A command that survives a trip over the wire: it is encodable, its names
/// and identifiers are tokens, its strings are UTF-8, and the data of an
/// `IDENTIFY` is a JSON document.
pub open spec fn well_formed(c: CommandView) -> bool {
    &&& encodable(c)
    &&& match c {
        CommandView::Pub { topic, body } => is_token(topic) && valid_utf8(topic),
        CommandView::Mpub { topic, bodies } => is_token(topic) && valid_utf8(topic),
        CommandView::Dpub { topic, delay, body } => is_token(topic) && valid_utf8(topic),
        CommandView::Sub { topic, channel } => is_token(topic) && valid_utf8(topic) && is_token(
            channel,
        ) && valid_utf8(channel),
        CommandView::Fin { message_id } => is_token(message_id),
        CommandView::Req { message_id, timeout } => is_token(message_id),
        CommandView::Touch { message_id } => is_token(message_id),
        CommandView::Identify { data } => json_well_formed(data),
        CommandView::Auth { secret } => valid_utf8(secret),
        _ => true,
    }
}

/// Why a command could not be read.
#[derive(Debug, Clone, Copy, PartialEq, Eq, Structural)]
pub enum CommandFault {
    /// The line or its payload does not have the shape of a command.
    Invalid,
    /// The data of an `IDENTIFY` is no JSON document.
    Serialization,
}

/// What the words `tokens` of a first line, followed by `rest`, hold as a
/// command.
pub open spec fn parse_tokens(tokens: Seq<Seq<u8>>, rest: Seq<u8>) -> Result<
    CommandView,
    CommandFault,
> {
    let n = tokens.len();
    match verb_of(tokens[0]) {
        None => Err(CommandFault::Invalid),
        Some(Verb::Pub) => if n == 2 && valid_utf8(tokens[1]) && parse_payload(rest) is Some {
            Ok(CommandView::Pub { topic: tokens[1], body: parse_payload(rest)->Some_0 })
        } else {
            Err(CommandFault::Invalid)
        },
        Some(Verb::Mpub) => if n == 2 && valid_utf8(tokens[1]) && parse_counted_bodies(rest)
            is Some {
            Ok(
                CommandView::Mpub {
                    topic: tokens[1],
                    bodies: parse_counted_bodies(rest)->Some_0,
                },
            )
        } else {
            Err(CommandFault::Invalid)
        },
        Some(Verb::Dpub) => if n == 3 && valid_utf8(tokens[1]) && parse_decimal_spec(
            tokens[2],
            u64::MAX,
        ) is Some && parse_payload(rest) is Some {
            Ok(
                CommandView::Dpub {
                    topic: tokens[1],
                    delay: parse_decimal_spec(tokens[2], u64::MAX)->Some_0,
                    body: parse_payload(rest)->Some_0,
                },
            )
        } else {
            Err(CommandFault::Invalid)
        },
        Some(Verb::Sub) => if n == 3 && valid_utf8(tokens[1]) && valid_utf8(tokens[2]) {
            Ok(CommandView::Sub { topic: tokens[1], channel: tokens[2] })
        } else {
            Err(CommandFault::Invalid)
        },
        Some(Verb::Rdy) => if n == 2 && parse_decimal_spec(tokens[1], u32::MAX as u64) is Some {
            Ok(
                CommandView::Rdy {
                    count: parse_decimal_spec(tokens[1], u32::MAX as u64)->Some_0 as u32,
                },
            )
        } else {
            Err(CommandFault::Invalid)
        },
        Some(Verb::Fin) => if n == 2 {
            Ok(CommandView::Fin { message_id: tokens[1] })
        } else {
            Err(CommandFault::Invalid)
        },
        Some(Verb::Req) => if n == 3 && parse_decimal_spec(tokens[2], u64::MAX) is Some {
            Ok(
                CommandView::Req {
                    message_id: tokens[1],
                    timeout: parse_decimal_spec(tokens[2], u64::MAX)->Some_0,
                },
            )
        } else {
            Err(CommandFault::Invalid)
        },
        Some(Verb::Touch) => if n == 2 {
            Ok(CommandView::Touch { message_id: tokens[1] })
        } else {
            Err(CommandFault::Invalid)
        },
        Some(Verb::Identify) => if n == 1 && parse_payload(rest) is Some {
            if json_well_formed(parse_payload(rest)->Some_0) {
                Ok(CommandView::Identify { data: parse_payload(rest)->Some_0 })
            } else {
                Err(CommandFault::Serialization)
            }
        } else {
            Err(CommandFault::Invalid)
        },
        Some(Verb::Auth) => if n == 1 && parse_payload(rest) is Some && valid_utf8(
            parse_payload(rest)->Some_0,
        ) {
            Ok(CommandView::Auth { secret: parse_payload(rest)->Some_0 })
        } else {
            Err(CommandFault::Invalid)
        },
        Some(Verb::Nop) => if n == 1 {
            Ok(CommandView::Nop)
        } else {
            Err(CommandFault::Invalid)
        },
        Some(Verb::Cls) => if n == 1 {
            Ok(CommandView::Close)
        } else {
            Err(CommandFault::Invalid)
        },
    }
}

/// What `data` holds as a command.
///
/// The first line runs to the first newline and splits into words at ASCII
/// whitespace. The first word is the verb; each verb takes a fixed number of
/// further words, and some take a payload after the newline. Bytes after the
/// command are ignored. Anything else is a fault.
pub open spec fn parse_command(data: Seq<u8>) -> Result<CommandView, CommandFault> {
    let end = index_of(data, 0x0a);
    if end >= data.len() {
        Err(CommandFault::Invalid)
    } else {
        let tokens = split_ws(data.take(end));
        if tokens.len() == 0 {
            Err(CommandFault::Invalid)
        } else {
            parse_tokens(tokens, data.skip(end + 1))
        }
    }
}

/// The fault that a protocol error reports.
pub open spec fn fault_of(e: ProtocolError) -> CommandFault {
    match e {
        ProtocolError::Serialization(_) => CommandFault::Serialization,
        _ => CommandFault::Invalid,
    }
}

/// The result of a parse, with the command taken by its view and the error
/// by its fault.
pub open spec fn command_result_view(res: Result<Command, ProtocolError>) -> Result<
    CommandView,
    CommandFault,
> {
    match res {
        Ok(c) => Ok(c@),
        Err(e) => Err(fault_of(e)),
    }
}

/// A run of payloads starts with its first payload.
proof fn lemma_bodies_unfold(bodies: Seq<Seq<u8>>, rest: Seq<u8>)
    requires
        bodies.len() > 0,
    ensures
        bodies_bytes(bodies) + rest == payload_bytes(bodies[0]) + (bodies_bytes(
            bodies.drop_first(),
        ) + rest),
{
    let head = payload_bytes(bodies[0]);
    let others = bodies_bytes(bodies.drop_first());
    assert(bodies_bytes(bodies) == head + others);
    assert((head + others) + rest =~= head + (others + rest));
}

/// Reading a run of payloads reads the first, then the others.
proof fn lemma_parse_bodies_step(data: Seq<u8>, first: Seq<u8>, others: Seq<Seq<u8>>)
    requires
        parse_payload(data) == Some(first),
        parse_bodies(data.skip(4 + first.len() as int), others.len()) == Some(others),
    ensures
        parse_bodies(data, others.len() + 1) == Some(seq![first] + others),
{
    let count = others.len() + 1;
    assert((count - 1) as nat == others.len());
}

/// Payloads written one after the other read back as they were.
pub proof fn lemma_bodies_roundtrip(bodies: Seq<Seq<u8>>, rest: Seq<u8>)
    requires
        forall|i: int| 0 <= i < bodies.len() ==> (#[trigger] bodies[i]).len() <= u32::MAX,
    ensures
        parse_bodies(bodies_bytes(bodies) + rest, bodies.len()) == Some(bodies),
    decreases bodies.len(),
{
    if bodies.len() == 0 {
        assert(bodies =~= Seq::<Seq<u8>>::empty());
    } else {
        let first = bodies[0];
        let others = bodies.drop_first();
        let tail = bodies_bytes(others) + rest;
        let data = bodies_bytes(bodies) + rest;
        lemma_bodies_unfold(bodies, rest);
        lemma_payload_roundtrip(first, tail);
        assert forall|i: int| 0 <= i < others.len() implies (#[trigger] others[i]).len()
            <= u32::MAX by {
            assert(others[i] == bodies[i + 1]);
        }
        lemma_bodies_roundtrip(others, rest);
        lemma_parse_bodies_step(data, first, others);
        assert(seq![first] + others =~= bodies);
    }
}

/// Appending one payload to a run of payloads.
pub proof fn lemma_bodies_push(bodies: Seq<Seq<u8>>, last: Seq<u8>)
    ensures
        bodies_bytes(bodies.push(last)) == bodies_bytes(bodies) + payload_bytes(last),
    decreases bodies.len(),
{
    if bodies.len() == 0 {
        let one = bodies.push(last);
        assert(one.drop_first() =~= Seq::<Seq<u8>>::empty());
        assert(one[0] == last);
        assert(bodies_bytes(one.drop_first()) =~= Seq::<u8>::empty());
        assert(bodies_bytes(one) =~= payload_bytes(last));
        assert(bodies_bytes(bodies) + payload_bytes(last) =~= payload_bytes(last));
    } else {
        assert(bodies.push(last).drop_first() =~= bodies.drop_first().push(last));
        lemma_bodies_push(bodies.drop_first(), last);
        assert(bodies_bytes(bodies.push(last)) =~= bodies_bytes(bodies) + payload_bytes(last));
    }
}

/// The first line of a well-formed command holds no newline and splits into
/// the verb and the arguments it was written from.
proof fn lemma_line_tokens(c: CommandView)
    requires
        well_formed(c),
    ensures
        forall|k: int| 0 <= k < command_line(c).len() ==> command_line(c)[k] != 0x0a,
        split_ws(command_line(c)).len() > 0,
        split_ws(command_line(c)) == match c {
            CommandView::Pub { topic, body } => seq![verb_word(Verb::Pub), topic],
            CommandView::Mpub { topic, bodies } => seq![verb_word(Verb::Mpub), topic],
            CommandView::Dpub { topic, delay, body } => seq![
                verb_word(Verb::Dpub),
                topic,
                decimal_digits(delay as nat),
            ],
            CommandView::Sub { topic, channel } => seq![verb_word(Verb::Sub), topic, channel],
            CommandView::Rdy { count } => seq![verb_word(Verb::Rdy), decimal_digits(count as nat)],
            CommandView::Fin { message_id } => seq![verb_word(Verb::Fin), message_id],
            CommandView::Req { message_id, timeout } => seq![
                verb_word(Verb::Req),
                message_id,
                decimal_digits(timeout as nat),
            ],
            CommandView::Touch { message_id } => seq![verb_word(Verb::Touch), message_id],
            CommandView::Identify { data } => seq![verb_word(Verb::Identify)],
            CommandView::Auth { secret } => seq![verb_word(Verb::Auth)],
            CommandView::Nop => seq![verb_word(Verb::Nop)],
            CommandView::Close => seq![verb_word(Verb::Cls)],
        },
{
    let line = command_line(c);
    match c {
        CommandView::Pub { topic, body } => {
            lemma_verb_word(Verb::Pub);
            lemma_split_two(verb_word(Verb::Pub), topic);
        },
        CommandView::Mpub { topic, bodies } => {
            lemma_verb_word(Verb::Mpub);
            lemma_split_two(verb_word(Verb::Mpub), topic);
        },
        CommandView::Dpub { topic, delay, body } => {
            lemma_verb_word(Verb::Dpub);
            lemma_decimal_digits(delay as nat);
            lemma_split_three(verb_word(Verb::Dpub), topic, decimal_digits(delay as nat));
        },
        CommandView::Sub { topic, channel } => {
            lemma_verb_word(Verb::Sub);
            lemma_split_three(verb_word(Verb::Sub), topic, channel);
        },
        CommandView::Rdy { count } => {
            lemma_verb_word(Verb::Rdy);
            lemma_decimal_digits(count as nat);
            lemma_split_two(verb_word(Verb::Rdy), decimal_digits(count as nat));
        },
        CommandView::Fin { message_id } => {
            lemma_verb_word(Verb::Fin);
            lemma_split_two(verb_word(Verb::Fin), message_id);
        },
        CommandView::Req { message_id, timeout } => {
            lemma_verb_word(Verb::Req);
            lemma_decimal_digits(timeout as nat);
            lemma_split_three(verb_word(Verb::Req), message_id, decimal_digits(timeout as nat));
        },
        CommandView::Touch { message_id } => {
            lemma_verb_word(Verb::Touch);
            lemma_split_two(verb_word(Verb::Touch), message_id);
        },
        CommandView::Identify { data } => {
            lemma_verb_word(Verb::Identify);
            lemma_split_one(verb_word(Verb::Identify));
        },
        CommandView::Auth { secret } => {
            lemma_verb_word(Verb::Auth);
            lemma_split_one(verb_word(Verb::Auth));
        },
        CommandView::Nop => {
            lemma_verb_word(Verb::Nop);
            lemma_split_one(verb_word(Verb::Nop));
        },
        CommandView::Close => {
            lemma_verb_word(Verb::Cls);
            lemma_split_one(verb_word(Verb::Cls));
        },
    }
    assert forall|k: int| 0 <= k < line.len() implies line[k] != 0x0a by {
        lemma_line_has_no_newline(c, k);
    }
}

/// No byte of the first line of a well-formed command is a newline.
proof fn lemma_line_has_no_newline(c: CommandView, k: int)
    requires
        well_formed(c),
        0 <= k < command_line(c).len(),
    ensures
        command_line(c)[k] != 0x0a,
{
    let sp = seq![0x20u8];
    match c {
        CommandView::Pub { topic, body } => {
            lemma_verb_word(Verb::Pub);
            lemma_no_newline_two(verb_word(Verb::Pub), topic, k);
        },
        CommandView::Mpub { topic, bodies } => {
            lemma_verb_word(Verb::Mpub);
            lemma_no_newline_two(verb_word(Verb::Mpub), topic, k);
        },
        CommandView::Dpub { topic, delay, body } => {
            lemma_verb_word(Verb::Dpub);
            lemma_decimal_digits(delay as nat);
            lemma_no_newline_three(verb_word(Verb::Dpub), topic, decimal_digits(delay as nat), k);
        },
        CommandView::Sub { topic, channel } => {
            lemma_verb_word(Verb::Sub);
            lemma_no_newline_three(verb_word(Verb::Sub), topic, channel, k);
        },
        CommandView::Rdy { count } => {
            lemma_verb_word(Verb::Rdy);
            lemma_decimal_digits(count as nat);
            lemma_no_newline_two(verb_word(Verb::Rdy), decimal_digits(count as nat), k);
        },
        CommandView::Fin { message_id } => {
            lemma_verb_word(Verb::Fin);
            lemma_no_newline_two(verb_word(Verb::Fin), message_id, k);
        },
        CommandView::Req { message_id, timeout } => {
            lemma_verb_word(Verb::Req);
            lemma_decimal_digits(timeout as nat);
            lemma_no_newline_three(
                verb_word(Verb::Req),
                message_id,
                decimal_digits(timeout as nat),
                k,
            );
        },
        CommandView::Touch { message_id } => {
            lemma_verb_word(Verb::Touch);
            lemma_no_newline_two(verb_word(Verb::Touch), message_id, k);
        },
        CommandView::Identify { data } => {
            lemma_verb_word(Verb::Identify);
        },
        CommandView::Auth { secret } => {
            lemma_verb_word(Verb::Auth);
        },
        CommandView::Nop => {
            lemma_verb_word(Verb::Nop);
        },
        CommandView::Close => {
            lemma_verb_word(Verb::Cls);
        },
    }
}

proof fn lemma_no_newline_two(a: Seq<u8>, b: Seq<u8>, k: int)
    requires
        no_spaces(a),
        no_spaces(b),
        0 <= k < (a + seq![0x20u8] + b).len(),
    ensures
        (a + seq![0x20u8] + b)[k] != 0x0a,
{
    let line = a + seq![0x20u8] + b;
    if k < a.len() {
        assert(line[k] == a[k]);
    } else if k == a.len() {
        assert(line[k] == 0x20);
    } else {
        assert(line[k] == b[k - a.len() - 1]);
    }
}

proof fn lemma_no_newline_three(a: Seq<u8>, b: Seq<u8>, c: Seq<u8>, k: int)
    requires
        no_spaces(a),
        no_spaces(b),
        no_spaces(c),
        0 <= k < (a + seq![0x20u8] + b + seq![0x20u8] + c).len(),
    ensures
        (a + seq![0x20u8] + b + seq![0x20u8] + c)[k] != 0x0a,
{
    let line = a + seq![0x20u8] + b + seq![0x20u8] + c;
    let front = a + seq![0x20u8] + b;
    if k < front.len() {
        assert(line[k] == front[k]);
        lemma_no_newline_two(a, b, k);
    } else if k == front.len() {
        assert(line[k] == 0x20);
    } else {
        assert(line[k] == c[k - front.len() - 1]);
    }
}

/// The wire form of a well-formed command is cut at the end of its first
/// line, and the line splits into at least the verb.
proof fn lemma_command_framing(c: CommandView, rest: Seq<u8>)
    requires
        well_formed(c),
    ensures
        parse_command(command_bytes(c) + rest) == parse_tokens(
            split_ws(command_line(c)),
            command_payload(c) + rest,
        ),
{
    let line = command_line(c);
    let data = command_bytes(c) + rest;
    let after = command_payload(c) + rest;
    lemma_line_tokens(c);
    assert(data =~= line + seq![0x0au8] + after);
    assert forall|k: int| 0 <= k < line.len() implies data[k] != 0x0a by {
        assert(data[k] == line[k]);
    }
    assert(data[line.len() as int] == 0x0a);
    lemma_index_of_is(data, 0x0a, line.len() as int);
    assert(data.take(line.len() as int) =~= line);
    assert(data.skip(line.len() as int + 1) =~= after);
}

/// The words and payload written for a well-formed publishing command read
/// back as the command.
proof fn lemma_tokens_roundtrip_publish(c: CommandView, rest: Seq<u8>)
    requires
        well_formed(c),
        c is Pub || c is Mpub || c is Dpub,
    ensures
        parse_tokens(split_ws(command_line(c)), command_payload(c) + rest) == Ok::<
            CommandView,
            CommandFault,
        >(c),
{
    lemma_line_tokens(c);
    let after = command_payload(c) + rest;
    match c {
        CommandView::Pub { topic, body } => {
            lemma_verb_word(Verb::Pub);
            lemma_payload_roundtrip(body, rest);
        },
        CommandView::Mpub { topic, bodies } => {
            lemma_verb_word(Verb::Mpub);
            lemma_u32_roundtrip(bodies.len() as u32);
            let counted = be_u32(bodies.len() as u32);
            assert(after =~= counted + (bodies_bytes(bodies) + rest));
            assert(after.subrange(0, 4) =~= counted);
            assert(after.skip(4) =~= bodies_bytes(bodies) + rest);
            lemma_bodies_roundtrip(bodies, rest);
        },
        CommandView::Dpub { topic, delay, body } => {
            lemma_verb_word(Verb::Dpub);
            lemma_decimal_roundtrip(delay, u64::MAX);
            lemma_payload_roundtrip(body, rest);
        },
        _ => {},
    }
}

/// The words written for a well-formed consumer command read back as the
/// command.
proof fn lemma_tokens_roundtrip_consume(c: CommandView, rest: Seq<u8>)
    requires
        well_formed(c),
        c is Sub || c is Rdy || c is Fin || c is Req || c is Touch,
    ensures
        parse_tokens(split_ws(command_line(c)), command_payload(c) + rest) == Ok::<
            CommandView,
            CommandFault,
        >(c),
{
    lemma_line_tokens(c);
    match c {
        CommandView::Sub { topic, channel } => {
            lemma_verb_word(Verb::Sub);
        },
        CommandView::Rdy { count } => {
            lemma_verb_word(Verb::Rdy);
            lemma_decimal_roundtrip(count as u64, u32::MAX as u64);
        },
        CommandView::Fin { message_id } => {
            lemma_verb_word(Verb::Fin);
        },
        CommandView::Req { message_id, timeout } => {
            lemma_verb_word(Verb::Req);
            lemma_decimal_roundtrip(timeout, u64::MAX);
        },
        CommandView::Touch { message_id } => {
            lemma_verb_word(Verb::Touch);
        },
        _ => {},
    }
}

/// The words and payload written for a well-formed control command read back
/// as the command.
proof fn lemma_tokens_roundtrip_control(c: CommandView, rest: Seq<u8>)
    requires
        well_formed(c),
        c is Identify || c is Auth || c is Nop || c is Close,
    ensures
        parse_tokens(split_ws(command_line(c)), command_payload(c) + rest) == Ok::<
            CommandView,
            CommandFault,
        >(c),
{
    lemma_line_tokens(c);
    match c {
        CommandView::Identify { data } => {
            lemma_verb_word(Verb::Identify);
            lemma_payload_roundtrip(data, rest);
        },
        CommandView::Auth { secret } => {
            lemma_verb_word(Verb::Auth);
            lemma_payload_roundtrip(secret, rest);
        },
        CommandView::Nop => {
            lemma_verb_word(Verb::Nop);
            assert(command_payload(c) + rest =~= rest);
        },
        CommandView::Close => {
            lemma_verb_word(Verb::Cls);
            assert(command_payload(c) + rest =~= rest);
        },
        _ => {},
    }
}

/// Decoding the wire form of a well-formed command gives the command back,
/// whatever follows it in the buffer.
pub proof fn lemma_command_roundtrip(c: CommandView, rest: Seq<u8>)
    requires
        well_formed(c),
    ensures
        parse_command(command_bytes(c) + rest) == Ok::<CommandView, CommandFault>(c),
{
    lemma_command_framing(c, rest);
    if c is Pub || c is Mpub || c is Dpub {
        lemma_tokens_roundtrip_publish(c, rest);
    } else if c is Sub || c is Rdy || c is Fin || c is Req || c is Touch {
        lemma_tokens_roundtrip_consume(c, rest);
    } else {
        lemma_tokens_roundtrip_control(c, rest);
    }
}

/// Appends the word of `v`.
fn put_verb(buf: &mut Vec<u8>, v: Verb)
    ensures
        final(buf)@ == old(buf)@ + verb_word(v),
{
    let word = word_of(v);
    append_bytes(buf, word.as_slice());
}

/// The word of `v`.
fn word_of(v: Verb) -> (word: Vec<u8>)
    ensures
        word@ == verb_word(v),
{
    let word = match v {
        Verb::Pub => vec![0x50u8, 0x55, 0x42],
        Verb::Mpub => vec![0x4du8, 0x50, 0x55, 0x42],
        Verb::Dpub => vec![0x44u8, 0x50, 0x55, 0x42],
        Verb::Sub => vec![0x53u8, 0x55, 0x42],
        Verb::Rdy => vec![0x52u8, 0x44, 0x59],
        Verb::Fin => vec![0x46u8, 0x49, 0x4e],
        Verb::Req => vec![0x52u8, 0x45, 0x51],
        Verb::Touch => vec![0x54u8, 0x4f, 0x55, 0x43, 0x48],
        Verb::Identify => vec![0x49u8, 0x44, 0x45, 0x4e, 0x54, 0x49, 0x46, 0x59],
        Verb::Auth => vec![0x41u8, 0x55, 0x54, 0x48],
        Verb::Nop => vec![0x4eu8, 0x4f, 0x50],
        Verb::Cls => vec![0x43u8, 0x4c, 0x53],
    };
    proof {
        assert(word@ =~= verb_word(v));
    }
    word
}

/// Whether `token` is the word of `v`.
fn spells(token: &[u8], v: Verb) -> (yes: bool)
    ensures
        yes == (token@ == verb_word(v)),
{
    let word = word_of(v);
    bytes_equal(token, word.as_slice())
}

/// Reads a verb.
pub fn read_verb(token: &[u8]) -> (res: Option<Verb>)
    ensures
        res == verb_of(token@),
{
    if spells(token, Verb::Pub) {
        Some(Verb::Pub)
    } else if spells(token, Verb::Mpub) {
        Some(Verb::Mpub)
    } else if spells(token, Verb::Dpub) {
        Some(Verb::Dpub)
    } else if spells(token, Verb::Sub) {
        Some(Verb::Sub)
    } else if spells(token, Verb::Rdy) {
        Some(Verb::Rdy)
    } else if spells(token, Verb::Fin) {
        Some(Verb::Fin)
    } else if spells(token, Verb::Req) {
        Some(Verb::Req)
    } else if spells(token, Verb::Touch) {
        Some(Verb::Touch)
    } else if spells(token, Verb::Identify) {
        Some(Verb::Identify)
    } else if spells(token, Verb::Auth) {
        Some(Verb::Auth)
    } else if spells(token, Verb::Nop) {
        Some(Verb::Nop)
    } else if spells(token, Verb::Cls) {
        Some(Verb::Cls)
    } else {
        None
    }
}

/// Reads the counted payloads of a multi-publish.
pub fn read_bodies(rest: &[u8]) -> (res: Option<Vec<Vec<u8>>>)
    ensures
        match res {
            Some(bodies) => parse_counted_bodies(rest@) == Some(byte_rows(bodies)),
            None => parse_counted_bodies(rest@) is None,
        },
{
    let n = rest.len();
    if n < 4 {
        return None;
    }
    let count = read_u32(rest, 0);
    let mut out: Vec<Vec<u8>> = Vec::new();
    let mut pos: usize = 4;
    let mut i: u32 = 0;
    proof {
        assert(byte_rows(out) =~= Seq::<Seq<u8>>::empty());
        let t = parse_bodies(rest@.skip(4), count as nat);
        if t is Some {
            assert(byte_rows(out) + t->Some_0 =~= t->Some_0);
        }
    }
    while i < count
        invariant
            4 <= pos <= n,
            n == rest@.len(),
            i <= count,
            count == u32_from_be(rest@.subrange(0, 4)),
            parse_bodies(rest@.skip(4), count as nat) == match parse_bodies(
                rest@.skip(pos as int),
                (count - i) as nat,
            ) {
                None => None::<Seq<Seq<u8>>>,
                Some(t) => Some(byte_rows(out) + t),
            },
        decreases count - i,
    {
        let ghost here = rest@.skip(pos as int);
        if n - pos < 4 {
            return None;
        }
        let len = read_u32(rest, pos) as usize;
        proof {
            assert(here.subrange(0, 4) =~= rest@.subrange(pos as int, pos + 4));
        }
        if n - pos - 4 < len {
            return None;
        }
        let body = copy_range(rest, pos + 4, pos + 4 + len);
        let ghost before = byte_rows(out);
        proof {
            assert(here.subrange(4, 4 + len) =~= body@);
            assert(here.skip(4 + len) =~= rest@.skip(pos + 4 + len));
        }
        out.push(body);
        proof {
            assert(byte_rows(out) =~= before.push(body@));
            let t = parse_bodies(rest@.skip(pos + 4 + len), (count - i - 1) as nat);
            if t is Some {
                assert(before + (seq![body@] + t->Some_0) =~= byte_rows(out) + t->Some_0);
            }
        }
        pos = pos + 4 + len;
        i = i + 1;
    }
    proof {
        assert(byte_rows(out) + Seq::<Seq<u8>>::empty() =~= byte_rows(out));
    }
    Some(out)
}

/// A copy of `token` as a string, where it is UTF-8.
fn token_string(token: &Vec<u8>) -> (res: Option<String>)
    ensures
        match res {
            Some(s) => valid_utf8(token@) && encode_utf8(s@) == token@,
            None => !valid_utf8(token@),
        },
{
    let copy = copy_range(token.as_slice(), 0, token.len());
    proof {
        assert(copy@ =~= token@);
    }
    string_from_utf8(copy)
}

/// A copy of `token`.
fn token_bytes(token: &Vec<u8>) -> (out: Vec<u8>)
    ensures
        out@ == token@,
{
    let copy = copy_range(token.as_slice(), 0, token.len());
    proof {
        assert(copy@ =~= token@);
    }
    copy
}

/// An invalid-command error with the given text.
fn invalid(text: &str) -> (e: ProtocolError)
    ensures
        e matches ProtocolError::InvalidCommand(m) && m@ == text@,
        fault_of(e) == CommandFault::Invalid,
{
    ProtocolError::InvalidCommand(String::from_str(text))
}

impl Command {
    /// The wire form of the command.
    ///
    /// A command with a payload longer than 32 bits can announce, or with
    /// more payloads than that, is a serialization error.
    pub fn to_bytes(&self) -> (res: Result<Vec<u8>, ProtocolError>)
        ensures
            encodable(self@) ==> res is Ok && res->Ok_0@ == command_bytes(self@),
            !encodable(self@) ==> res is Err && res->Err_0 is Serialization,
    {
        let mut buf: Vec<u8> = Vec::new();
        match self {
            Command::Pub { topic, body } => {
                if body.len() > u32::MAX as usize {
                    return Err(too_large());
                }
                put_verb(&mut buf, Verb::Pub);
                buf.push(0x20);
                append_bytes(&mut buf, string_bytes(topic));
                buf.push(0x0a);
                put_payload(&mut buf, body.as_slice());
            },
            Command::Mpub { topic, bodies } => {
                if bodies.len() > u32::MAX as usize {
                    return Err(too_large());
                }
                put_verb(&mut buf, Verb::Mpub);
                buf.push(0x20);
                append_bytes(&mut buf, string_bytes(topic));
                buf.push(0x0a);
                put_u32(&mut buf, bodies.len() as u32);
                let ghost head = buf@;
                let ghost rows = byte_rows(*bodies);
                let mut i: usize = 0;
                proof {
                    assert(rows.take(0) =~= Seq::<Seq<u8>>::empty());
                    assert(head + bodies_bytes(rows.take(0)) =~= head);
                }
                while i < bodies.len()
                    invariant
                        i <= bodies@.len(),
                        rows == byte_rows(*bodies),
                        (self@ matches CommandView::Mpub { topic: t, bodies: b } && b == rows),
                        buf@ == head + bodies_bytes(rows.take(i as int)),
                        forall|k: int| 0 <= k < i ==> (#[trigger] rows[k]).len() <= u32::MAX,
                    decreases bodies@.len() - i,
                {
                    if bodies[i].len() > u32::MAX as usize {
                        proof {
                            assert(rows[i as int].len() > u32::MAX);
                        }
                        return Err(too_large());
                    }
                    put_payload(&mut buf, bodies[i].as_slice());
                    proof {
                        assert(rows.take(i + 1) =~= rows.take(i as int).push(rows[i as int]));
                        lemma_bodies_push(rows.take(i as int), rows[i as int]);
                        assert(buf@ =~= head + bodies_bytes(rows.take(i + 1)));
                    }
                    i = i + 1;
                }
                proof {
                    assert(rows.take(bodies@.len() as int) =~= rows);
                }
            },
            Command::Dpub { topic, delay, body } => {
                if body.len() > u32::MAX as usize {
                    return Err(too_large());
                }
                put_verb(&mut buf, Verb::Dpub);
                buf.push(0x20);
                append_bytes(&mut buf, string_bytes(topic));
                buf.push(0x20);
                put_decimal(&mut buf, *delay);
                buf.push(0x0a);
                put_payload(&mut buf, body.as_slice());
            },
            Command::Sub { topic, channel } => {
                put_verb(&mut buf, Verb::Sub);
                buf.push(0x20);
                append_bytes(&mut buf, string_bytes(topic));
                buf.push(0x20);
                append_bytes(&mut buf, string_bytes(channel));
                buf.push(0x0a);
            },
            Command::Rdy { count } => {
                put_verb(&mut buf, Verb::Rdy);
                buf.push(0x20);
                put_decimal(&mut buf, *count as u64);
                buf.push(0x0a);
            },
            Command::Fin { message_id } => {
                put_verb(&mut buf, Verb::Fin);
                buf.push(0x20);
                append_bytes(&mut buf, message_id.as_slice());
                buf.push(0x0a);
            },
            Command::Req { message_id, timeout } => {
                put_verb(&mut buf, Verb::Req);
                buf.push(0x20);
                append_bytes(&mut buf, message_id.as_slice());
                buf.push(0x20);
                put_decimal(&mut buf, *timeout);
                buf.push(0x0a);
            },
            Command::Touch { message_id } => {
                put_verb(&mut buf, Verb::Touch);
                buf.push(0x20);
                append_bytes(&mut buf, message_id.as_slice());
                buf.push(0x0a);
            },
            Command::Identify { data } => {
                if data.len() > u32::MAX as usize {
                    return Err(too_large());
                }
                put_verb(&mut buf, Verb::Identify);
                buf.push(0x0a);
                put_payload(&mut buf, data.as_slice());
            },
            Command::Auth { secret } => {
                let bytes = string_bytes(secret);
                if bytes.len() > u32::MAX as usize {
                    return Err(too_large());
                }
                put_verb(&mut buf, Verb::Auth);
                buf.push(0x0a);
                put_payload(&mut buf, bytes);
            },
            Command::Nop => {
                put_verb(&mut buf, Verb::Nop);
                buf.push(0x0a);
            },
            Command::Close => {
                put_verb(&mut buf, Verb::Cls);
                buf.push(0x0a);
            },
        }
        proof {
            assert(buf@ =~= command_bytes(self@));
        }
        Ok(buf)
    }

    /// Reads the command at the start of `data`.
    ///
    /// Data without a newline, an empty line, an unknown verb, a wrong number
    /// of arguments, an argument that is no number or no UTF-8, and a payload
    /// that is cut short are invalid-command errors. `IDENTIFY` data that is
    /// no JSON document is a serialization error.
    pub fn from_bytes(data: &[u8]) -> (res: Result<Command, ProtocolError>)
        ensures
            command_result_view(res) == parse_command(data@),
            res is Err ==> res->Err_0 is InvalidCommand || res->Err_0 is Serialization,
    {
        let end = match find_byte(data, 0x0a) {
            Some(end) => end,
            None => {
                return Err(invalid("Missing newline"));
            },
        };
        let len = data.len();
        let line = vstd::slice::slice_subrange(data, 0, end);
        let rest = vstd::slice::slice_subrange(data, end + 1, len);
        let tokens = split_whitespace(line);
        proof {
            assert(data@.take(end as int) =~= line@);
            assert(data@.skip(end + 1) =~= rest@);
        }
        let n = tokens.len();
        if n == 0 {
            return Err(invalid("Empty command"));
        }
        let ghost words = split_ws(line@);
        assert(forall|k: int| 0 <= k < n ==> tokens@[k]@ == #[trigger] words[k]);
        let verb = match read_verb(tokens[0].as_slice()) {
            Some(verb) => verb,
            None => {
                return Err(invalid("Unknown command"));
            },
        };
        match verb {
            Verb::Pub => {
                if n != 2 {
                    return Err(invalid("Invalid PUB command"));
                }
                let topic = match token_string(&tokens[1]) {
                    Some(topic) => topic,
                    None => {
                        return Err(invalid("Invalid PUB command"));
                    },
                };
                match read_payload(rest) {
                    Some(body) => Ok(Command::Pub { topic, body }),
                    None => Err(invalid("Invalid PUB command")),
                }
            },
            Verb::Mpub => {
                if n != 2 {
                    return Err(invalid("Invalid MPUB command"));
                }
                let topic = match token_string(&tokens[1]) {
                    Some(topic) => topic,
                    None => {
                        return Err(invalid("Invalid MPUB command"));
                    },
                };
                match read_bodies(rest) {
                    Some(bodies) => Ok(Command::Mpub { topic, bodies }),
                    None => Err(invalid("Invalid MPUB command")),
                }
            },
            Verb::Dpub => {
                if n != 3 {
                    return Err(invalid("Invalid DPUB command"));
                }
                let topic = match token_string(&tokens[1]) {
                    Some(topic) => topic,
                    None => {
                        return Err(invalid("Invalid DPUB command"));
                    },
                };
                let delay = match parse_decimal(tokens[2].as_slice(), u64::MAX) {
                    Some(delay) => delay,
                    None => {
                        return Err(invalid("Invalid DPUB command"));
                    },
                };
                match read_payload(rest) {
                    Some(body) => Ok(Command::Dpub { topic, delay, body }),
                    None => Err(invalid("Invalid DPUB command")),
                }
            },
            Verb::Sub => {
                if n != 3 {
                    return Err(invalid("Invalid SUB command"));
                }
                let topic = match token_string(&tokens[1]) {
                    Some(topic) => topic,
                    None => {
                        return Err(invalid("Invalid SUB command"));
                    },
                };
                match token_string(&tokens[2]) {
                    Some(channel) => Ok(Command::Sub { topic, channel }),
                    None => Err(invalid("Invalid SUB command")),
                }
            },
            Verb::Rdy => {
                if n != 2 {
                    return Err(invalid("Invalid RDY command"));
                }
                match parse_decimal(tokens[1].as_slice(), u32::MAX as u64) {
                    Some(count) => Ok(Command::Rdy { count: count as u32 }),
                    None => Err(invalid("Invalid RDY command")),
                }
            },
            Verb::Fin => {
                if n != 2 {
                    return Err(invalid("Invalid FIN command"));
                }
                Ok(Command::Fin { message_id: token_bytes(&tokens[1]) })
            },
            Verb::Req => {
                if n != 3 {
                    return Err(invalid("Invalid REQ command"));
                }
                match parse_decimal(tokens[2].as_slice(), u64::MAX) {
                    Some(timeout) => Ok(
                        Command::Req { message_id: token_bytes(&tokens[1]), timeout },
                    ),
                    None => Err(invalid("Invalid REQ command")),
                }
            },
            Verb::Touch => {
                if n != 2 {
                    return Err(invalid("Invalid TOUCH command"));
                }
                Ok(Command::Touch { message_id: token_bytes(&tokens[1]) })
            },
            Verb::Identify => {
                if n != 1 {
                    return Err(invalid("Invalid IDENTIFY command"));
                }
                match read_payload(rest) {
                    Some(data) => {
                        if json_parses(data.as_slice()) {
                            Ok(Command::Identify { data })
                        } else {
                            Err(
                                ProtocolError::Serialization(
                                    String::from_str("IDENTIFY data is not JSON"),
                                ),
                            )
                        }
                    },
                    None => Err(invalid("Invalid IDENTIFY command")),
                }
            },
            Verb::Auth => {
                if n != 1 {
                    return Err(invalid("Invalid AUTH command"));
                }
                match read_payload(rest) {
                    Some(bytes) => match string_from_utf8(bytes) {
                        Some(secret) => Ok(Command::Auth { secret }),
                        None => Err(invalid("Invalid AUTH command")),
                    },
                    None => Err(invalid("Invalid AUTH command")),
                }
            },
            Verb::Nop => {
                if n != 1 {
                    return Err(invalid("Invalid NOP command"));
                }
                Ok(Command::Nop)
            },
            Verb::Cls => {
                if n != 1 {
                    return Err(invalid("Invalid CLS command"));
                }
                Ok(Command::Close)
            },
        }
    }

    /// The verb of the command.
    pub fn verb(&self) -> (v: Verb)
        ensures
            v == verb_of_command(self@),
    {
        match self {
            Command::Pub { .. } => Verb::Pub,
            Command::Mpub { .. } => Verb::Mpub,
            Command::Dpub { .. } => Verb::Dpub,
            Command::Sub { .. } => Verb::Sub,
            Command::Rdy { .. } => Verb::Rdy,
            Command::Fin { .. } => Verb::Fin,
            Command::Req { .. } => Verb::Req,
            Command::Touch { .. } => Verb::Touch,
            Command::Identify { .. } => Verb::Identify,
            Command::Auth { .. } => Verb::Auth,
            Command::Nop => Verb::Nop,
            Command::Close => Verb::Cls,
        }
    }

    /// The verb of the command, as it is written on the wire.
    pub fn name(&self) -> (name: &'static str)
        ensures
            name@ == verb_name(verb_of_command(self@)),
    {
        match self {
            Command::Pub { .. } => "PUB",
            Command::Mpub { .. } => "MPUB",
            Command::Dpub { .. } => "DPUB",
            Command::Sub { .. } => "SUB",
            Command::Rdy { .. } => "RDY",
            Command::Fin { .. } => "FIN",
            Command::Req { .. } => "REQ",
            Command::Touch { .. } => "TOUCH",
            Command::Identify { .. } => "IDENTIFY",
            Command::Auth { .. } => "AUTH",
            Command::Nop => "NOP",
            Command::Close => "CLS",
        }
    }
}

/// The verb that a command is written with.
pub open spec fn verb_of_command(c: CommandView) -> Verb {
    match c {
        CommandView::Pub { .. } => Verb::Pub,
        CommandView::Mpub { .. } => Verb::Mpub,
        CommandView::Dpub { .. } => Verb::Dpub,
        CommandView::Sub { .. } => Verb::Sub,
        CommandView::Rdy { .. } => Verb::Rdy,
        CommandView::Fin { .. } => Verb::Fin,
        CommandView::Req { .. } => Verb::Req,
        CommandView::Touch { .. } => Verb::Touch,
        CommandView::Identify { .. } => Verb::Identify,
        CommandView::Auth { .. } => Verb::Auth,
        CommandView::Nop => Verb::Nop,
        CommandView::Close => Verb::Cls,
    }
}

/// The name of a verb as text.
pub open spec fn verb_name(v: Verb) -> Seq<char> {
    match v {
        Verb::Pub => "PUB"@,
        Verb::Mpub => "MPUB"@,
        Verb::Dpub => "DPUB"@,
        Verb::Sub => "SUB"@,
        Verb::Rdy => "RDY"@,
        Verb::Fin => "FIN"@,
        Verb::Req => "REQ"@,
        Verb::Touch => "TOUCH"@,
        Verb::Identify => "IDENTIFY"@,
        Verb::Auth => "AUTH"@,
        Verb::Nop => "NOP"@,
        Verb::Cls => "CLS"@,
    }
}

/// The error for a payload that is too large to announce.
fn too_large() -> (e: ProtocolError)
    ensures
        e matches ProtocolError::Serialization(m) && m@ == "Payload too large"@,
{
    ProtocolError::Serialization(String::from_str("Payload too large"))
}

/// How much of a buffer the command at its start takes.
#[derive(Debug, Clone, Copy, PartialEq, Eq, Structural)]
pub enum Extent {
    /// The buffer ends before the command does.
    Incomplete,
    /// The buffer does not start with a command.
    Malformed,
    /// The command takes this many bytes.
    Whole(usize),
}

/// The number of bytes that `count` payloads at the start of `rest` take, or
/// `None` where `rest` ends before they do.
pub open spec fn bodies_extent(rest: Seq<u8>, count: nat) -> Option<nat>
    decreases count,
{
    if count == 0 {
        Some(0)
    } else {
        match parse_payload(rest) {
            None => None,
            Some(first) => match bodies_extent(
                rest.skip(4 + first.len() as int),
                (count - 1) as nat,
            ) {
                None => None,
                Some(n) => Some(4 + first.len() + n),
            },
        }
    }
}

/// The number of bytes that the payload of a command with the verb `v` takes
/// at the start of `rest`, or `None` where `rest` ends before it does.
pub open spec fn payload_extent(v: Verb, rest: Seq<u8>) -> Option<nat> {
    match v {
        Verb::Pub | Verb::Dpub | Verb::Identify | Verb::Auth => match parse_payload(rest) {
            Some(body) => Some(4 + body.len()),
            None => None,
        },
        Verb::Mpub => if rest.len() < 4 {
            None
        } else {
            match bodies_extent(rest.skip(4), u32_from_be(rest.subrange(0, 4)) as nat) {
                Some(n) => Some(4 + n),
                None => None,
            }
        },
        _ => Some(0),
    }
}

/// How much of `data` the command at its start takes: its first line, and
/// the payload that its verb calls for. Without a whole first line or a
/// whole payload the command is incomplete; a first line without a known
/// verb is malformed.
pub open spec fn command_extent(data: Seq<u8>) -> Extent {
    let end = index_of(data, 0x0a);
    if end >= data.len() {
        Extent::Incomplete
    } else {
        let tokens = split_ws(data.take(end));
        if tokens.len() == 0 || verb_of(tokens[0]) is None {
            Extent::Malformed
        } else {
            match payload_extent(verb_of(tokens[0])->Some_0, data.skip(end + 1)) {
                Some(n) => Extent::Whole((end + 1 + n) as usize),
                None => Extent::Incomplete,
            }
        }
    }
}

/// The number of bytes that `count` payloads at the start of `rest` take.
fn measure_bodies(rest: &[u8], count: u32) -> (res: Option<usize>)
    ensures
        match res {
            Some(n) => bodies_extent(rest@, count as nat) == Some(n as nat) && n <= rest@.len(),
            None => bodies_extent(rest@, count as nat) is None,
        },
{
    let n = rest.len();
    let mut pos: usize = 0;
    let mut i: u32 = 0;
    proof {
        assert(rest@.skip(0) =~= rest@);
    }
    while i < count
        invariant
            pos <= n,
            n == rest@.len(),
            i <= count,
            bodies_extent(rest@, count as nat) == match bodies_extent(
                rest@.skip(pos as int),
                (count - i) as nat,
            ) {
                None => None::<nat>,
                Some(m) => Some(pos as nat + m),
            },
        decreases count - i,
    {
        let ghost here = rest@.skip(pos as int);
        if n - pos < 4 {
            return None;
        }
        let len = read_u32(rest, pos) as usize;
        proof {
            assert(here.subrange(0, 4) =~= rest@.subrange(pos as int, pos + 4));
        }
        if n - pos - 4 < len {
            return None;
        }
        proof {
            assert(here.skip(4 + len) =~= rest@.skip(pos + 4 + len));
            assert(here.subrange(4, 4 + len).len() == len);
        }
        pos = pos + 4 + len;
        i = i + 1;
    }
    Some(pos)
}

impl Command {
    /// How much of `data` the command at its start takes.
    pub fn extent(data: &[u8]) -> (res: Extent)
        ensures
            res == command_extent(data@),
            res matches Extent::Whole(n) ==> n <= data@.len(),
    {
        let len = data.len();
        let end = match find_byte(data, 0x0a) {
            Some(end) => end,
            None => {
                return Extent::Incomplete;
            },
        };
        let line = vstd::slice::slice_subrange(data, 0, end);
        let rest = vstd::slice::slice_subrange(data, end + 1, len);
        let tokens = split_whitespace(line);
        proof {
            assert(data@.take(end as int) =~= line@);
            assert(data@.skip(end + 1) =~= rest@);
        }
        if tokens.len() == 0 {
            return Extent::Malformed;
        }
        let ghost words = split_ws(line@);
        assert(tokens@[0]@ == words[0]);
        let verb = match read_verb(tokens[0].as_slice()) {
            Some(verb) => verb,
            None => {
                return Extent::Malformed;
            },
        };
        match verb {
            Verb::Pub | Verb::Dpub | Verb::Identify | Verb::Auth => {
                if rest.len() < 4 {
                    return Extent::Incomplete;
                }
                let n = read_u32(rest, 0) as usize;
                if rest.len() - 4 < n {
                    return Extent::Incomplete;
                }
                proof {
                    assert(rest@.subrange(4, 4 + n).len() == n);
                }
                Extent::Whole(end + 1 + 4 + n)
            },
            Verb::Mpub => {
                if rest.len() < 4 {
                    return Extent::Incomplete;
                }
                let count = read_u32(rest, 0);
                let tail = vstd::slice::slice_subrange(rest, 4, rest.len());
                proof {
                    assert(tail@ =~= rest@.skip(4));
                }
                match measure_bodies(tail, count) {
                    Some(n) => Extent::Whole(end + 1 + 4 + n),
                    None => Extent::Incomplete,
                }
            },
            _ => Extent::Whole(end + 1),
        }
    }
}

} // verus!
