//! The replies of the broker to its clients, and the negotiation of
//! connection parameters.

use crate::client::ClientInfo;
use crate::frame::{Frame, FrameType, FrameView};
use crate::text::put_decimal;
use crate::wire::append_bytes;
use vstd::prelude::*;
use vstd::string::*;

verus! {

/// The error codes of the client protocol.
#[derive(Debug, Clone, Copy, PartialEq, Eq, Structural)]
pub enum ErrorCode {
    Invalid,
    BadTopic,
    BadChannel,
    BadMessage,
    PubFailed,
    FinFailed,
    ReqFailed,
    TouchFailed,
    AuthFailed,
    Unauthorized,
}

/// The text of an error code on the wire.
pub open spec fn code_text(code: ErrorCode) -> Seq<char> {
    match code {
        ErrorCode::Invalid => "E_INVALID"@,
        ErrorCode::BadTopic => "E_BAD_TOPIC"@,
        ErrorCode::BadChannel => "E_BAD_CHANNEL"@,
        ErrorCode::BadMessage => "E_BAD_MESSAGE"@,
        ErrorCode::PubFailed => "E_PUB_FAILED"@,
        ErrorCode::FinFailed => "E_FIN_FAILED"@,
        ErrorCode::ReqFailed => "E_REQ_FAILED"@,
        ErrorCode::TouchFailed => "E_TOUCH_FAILED"@,
        ErrorCode::AuthFailed => "E_AUTH_FAILED"@,
        ErrorCode::Unauthorized => "E_UNAUTHORIZED"@,
    }
}

impl ErrorCode {
    /// The text of the code on the wire.
    pub fn as_str(&self) -> (text: &'static str)
        ensures
            text@ == code_text(*self),
    {
        match self {
            ErrorCode::Invalid => "E_INVALID",
            ErrorCode::BadTopic => "E_BAD_TOPIC",
            ErrorCode::BadChannel => "E_BAD_CHANNEL",
            ErrorCode::BadMessage => "E_BAD_MESSAGE",
            ErrorCode::PubFailed => "E_PUB_FAILED",
            ErrorCode::FinFailed => "E_FIN_FAILED",
            ErrorCode::ReqFailed => "E_REQ_FAILED",
            ErrorCode::TouchFailed => "E_TOUCH_FAILED",
            ErrorCode::AuthFailed => "E_AUTH_FAILED",
            ErrorCode::Unauthorized => "E_UNAUTHORIZED",
        }
    }

    /// Whether the connection is closed after the error: only a violation of
    /// the protocol is fatal.
    pub fn is_fatal(&self) -> (fatal: bool)
        ensures
            fatal == (*self == ErrorCode::Invalid),
    {
        match self {
            ErrorCode::Invalid => true,
            _ => false,
        }
    }
}

/// What the broker answers to a command.
#[derive(Debug)]
pub enum Reply {
    /// No frame.
    Nothing,
    /// A response frame that reads `OK`.
    Done,
    /// A response frame with the given body.
    Response(Vec<u8>),
    /// An error frame with the text of the code.
    Error(ErrorCode),
    /// A response frame that reads `CLOSE_WAIT`; the connection is closed.
    CloseWait,
}

/// A reply without its payload.
#[derive(Debug, Clone, Copy, PartialEq, Eq, Structural)]
pub enum ReplyKind {
    Nothing,
    Done,
    Response,
    Error(ErrorCode),
    CloseWait,
}

impl Reply {
    /// The reply without its payload.
    pub open spec fn kind(self) -> ReplyKind {
        match self {
            Reply::Nothing => ReplyKind::Nothing,
            Reply::Done => ReplyKind::Done,
            Reply::Response(_) => ReplyKind::Response,
            Reply::Error(code) => ReplyKind::Error(code),
            Reply::CloseWait => ReplyKind::CloseWait,
        }
    }

    /// Whether the connection is closed after the reply.
    pub open spec fn closing(self) -> bool {
        self is CloseWait || self == Reply::Error(ErrorCode::Invalid)
    }

    /// The frame that carries the reply, if it has one.
    pub open spec fn frame(self) -> Option<FrameView> {
        match self {
            Reply::Nothing => None,
            Reply::Done => Some(
                FrameView { frame_type: FrameType::Response, body: "OK".spec_bytes() },
            ),
            Reply::Response(body) => Some(
                FrameView { frame_type: FrameType::Response, body: body@ },
            ),
            Reply::Error(code) => Some(
                FrameView { frame_type: FrameType::Error, body: code_bytes(code) },
            ),
            Reply::CloseWait => Some(
                FrameView { frame_type: FrameType::Response, body: "CLOSE_WAIT".spec_bytes() },
            ),
        }
    }

    /// Whether the connection is closed after the reply: after a fatal error
    /// and after the answer to a close.
    pub fn closes(&self) -> (yes: bool)
        ensures
            yes == self.closing(),
    {
        match self {
            Reply::CloseWait => true,
            Reply::Error(code) => code.is_fatal(),
            _ => false,
        }
    }

    /// The frame that carries the reply, if it has one.
    pub fn to_frame(&self) -> (res: Option<Frame>)
        ensures
            match self.frame() {
                Some(f) => res is Some && res->Some_0@ == f,
                None => res is None,
            },
    {
        match self {
            Reply::Nothing => None,
            Reply::Done => Some(Frame::new(FrameType::Response, bytes_of("OK"))),
            Reply::Response(body) => {
                let mut copy: Vec<u8> = Vec::new();
                append_bytes(&mut copy, body.as_slice());
                proof {
                    assert(copy@ =~= body@);
                }
                Some(Frame::new(FrameType::Response, copy))
            },
            Reply::Error(code) => Some(Frame::new(FrameType::Error, bytes_of(code.as_str()))),
            Reply::CloseWait => Some(Frame::new(FrameType::Response, bytes_of("CLOSE_WAIT"))),
        }
    }
}

/// The bytes of an error code on the wire.
pub open spec fn code_bytes(code: ErrorCode) -> Seq<u8> {
    vstd::utf8::encode_utf8(code_text(code))
}

/// A copy of the bytes of `text`.
pub fn bytes_of(text: &str) -> (out: Vec<u8>)
    ensures
        out@ == text.spec_bytes(),
{
    let mut out: Vec<u8> = Vec::new();
    append_bytes(&mut out, text.as_bytes());
    proof {
        assert(out@ =~= text.spec_bytes());
    }
    out
}

/// The frame that asks a silent client for a sign of life.
pub fn heartbeat_frame() -> (frame: Frame)
    ensures
        frame@ == (FrameView {
            frame_type: FrameType::Response,
            body: "_heartbeat_".spec_bytes(),
        }),
{
    Frame::new(FrameType::Response, bytes_of("_heartbeat_"))
}

/// The four bytes that open a connection to the broker.
pub open spec fn magic_v2() -> Seq<u8> {
    seq![0x20u8, 0x20, 0x56, 0x32]
}

/// Whether `bytes` are the four bytes that open a connection to the broker:
/// two spaces, `V` and `2`.
pub fn is_magic_v2(bytes: &[u8]) -> (yes: bool)
    ensures
        yes == (bytes@ == magic_v2()),
{
    let yes = bytes.len() == 4 && bytes[0] == 0x20 && bytes[1] == 0x20 && bytes[2] == 0x56
        && bytes[3] == 0x32;
    proof {
        if yes {
            assert(bytes@ =~= magic_v2());
        }
    }
    yes
}

/// The longest heartbeat interval a client can negotiate, in milliseconds.
pub const MAX_HEARTBEAT_INTERVAL: u64 = 60000;

/// The largest sample rate a client can negotiate, in percent.
pub const MAX_SAMPLE_RATE: u32 = 99;

/// What a client asks for when it identifies itself. A field that is absent
/// asks for the default.
#[derive(Debug)]
pub struct IdentifyRequest {
    pub heartbeat_interval: Option<u64>,
    pub output_buffer_size: Option<u64>,
    pub output_buffer_timeout: Option<u64>,
    pub msg_timeout: Option<u64>,
    pub sample_rate: Option<u64>,
    pub deflate: Option<bool>,
    pub snappy: Option<bool>,
    pub hostname: Option<String>,
    pub user_agent: Option<String>,
}

/// The number under `key` in the JSON object `data`, as `serde_json` reads
/// it; `None` where `data` is no object, has no such key, or has another
/// kind of value there.
pub uninterp spec fn json_number(data: Seq<u8>, key: Seq<char>) -> Option<u64>;

/// The truth value under `key` in the JSON object `data`, as `serde_json`
/// reads it.
pub uninterp spec fn json_flag(data: Seq<u8>, key: Seq<char>) -> Option<bool>;

/// The string under `key` in the JSON object `data`, as `serde_json` reads
/// it.
pub uninterp spec fn json_text(data: Seq<u8>, key: Seq<char>) -> Option<Seq<char>>;

/// Calls `serde_json::from_slice` for a `serde_json::Value`, then
/// `Value::get` and `Value::as_u64`. The contract only names the answer.
#[verifier::external_body]
pub(crate) fn json_u64_field(data: &[u8], key: &str) -> (res: Option<u64>)
    ensures
        res == json_number(data@, key@),
{
    serde_json::from_slice::<serde_json::Value>(data).ok()?.get(key)?.as_u64()
}

/// Calls `serde_json::from_slice` for a `serde_json::Value`, then
/// `Value::get` and `Value::as_bool`. The contract only names the answer.
#[verifier::external_body]
pub(crate) fn json_bool_field(data: &[u8], key: &str) -> (res: Option<bool>)
    ensures
        res == json_flag(data@, key@),
{
    serde_json::from_slice::<serde_json::Value>(data).ok()?.get(key)?.as_bool()
}

/// Calls `serde_json::from_slice` for a `serde_json::Value`, then
/// `Value::get` and `Value::as_str`, and copies the string. The contract
/// only names the answer.
#[verifier::external_body]
pub(crate) fn json_string_field(data: &[u8], key: &str) -> (res: Option<String>)
    ensures
        match res {
            Some(s) => json_text(data@, key@) == Some(s@),
            None => json_text(data@, key@) is None,
        },
{
    let value = serde_json::from_slice::<serde_json::Value>(data).ok()?;
    Some(value.get(key)?.as_str()?.to_string())
}

/// The text of an optional string.
pub open spec fn text_of(s: Option<String>) -> Option<Seq<char>> {
    match s {
        Some(s) => Some(s@),
        None => None,
    }
}

impl IdentifyRequest {
    /// A request that asks for every default.
    pub fn empty() -> (req: IdentifyRequest)
        ensures
            req.heartbeat_interval is None,
            req.output_buffer_size is None,
            req.output_buffer_timeout is None,
            req.msg_timeout is None,
            req.sample_rate is None,
            req.deflate is None,
            req.snappy is None,
            req.hostname is None,
            req.user_agent is None,
    {
        IdentifyRequest {
            heartbeat_interval: None,
            output_buffer_size: None,
            output_buffer_timeout: None,
            msg_timeout: None,
            sample_rate: None,
            deflate: None,
            snappy: None,
            hostname: None,
            user_agent: None,
        }
    }

    /// Whether the request is what the JSON data `data` asks for: each
    /// field is what stands under its name in the data.
    pub open spec fn asked_in(self, data: Seq<u8>) -> bool {
        &&& self.heartbeat_interval == json_number(data, "heartbeat_interval"@)
        &&& self.output_buffer_size == json_number(data, "output_buffer_size"@)
        &&& self.output_buffer_timeout == json_number(data, "output_buffer_timeout"@)
        &&& self.msg_timeout == json_number(data, "msg_timeout"@)
        &&& self.sample_rate == json_number(data, "sample_rate"@)
        &&& self.deflate == json_flag(data, "deflate"@)
        &&& self.snappy == json_flag(data, "snappy"@)
        &&& text_of(self.hostname) == json_text(data, "hostname"@)
        &&& text_of(self.user_agent) == json_text(data, "user_agent"@)
    }

    /// Reads a request out of the JSON data of an `IDENTIFY` command.
    pub fn from_json(data: &[u8]) -> (req: IdentifyRequest)
        ensures
            req.asked_in(data@),
    {
        IdentifyRequest {
            heartbeat_interval: json_u64_field(data, "heartbeat_interval"),
            output_buffer_size: json_u64_field(data, "output_buffer_size"),
            output_buffer_timeout: json_u64_field(data, "output_buffer_timeout"),
            msg_timeout: json_u64_field(data, "msg_timeout"),
            sample_rate: json_u64_field(data, "sample_rate"),
            deflate: json_bool_field(data, "deflate"),
            snappy: json_bool_field(data, "snappy"),
            hostname: json_string_field(data, "hostname"),
            user_agent: json_string_field(data, "user_agent"),
        }
    }
}

/// What the broker grants of what a client may ask for.
#[derive(Debug, Clone, Copy, PartialEq, Eq, Structural)]
pub struct Grants {
    pub msg_timeout: u64,
    pub max_msg_timeout: u64,
    pub max_rdy_count: u32,
    pub max_output_buffer_size: usize,
    pub max_output_buffer_timeout: u64,
}

/// `wanted` where it is given and no larger than `max`, `max` where it is
/// larger, and `default` where it is absent.
pub open spec fn bounded(wanted: Option<u64>, default: u64, max: u64) -> u64 {
    match wanted {
        Some(w) => if w <= max {
            w
        } else {
            max
        },
        None => default,
    }
}

/// `wanted` where it is given and no larger than `max`, `max` where it is
/// larger, and `default` where it is absent.
pub fn bound(wanted: Option<u64>, default: u64, max: u64) -> (out: u64)
    ensures
        out == bounded(wanted, default, max),
{
    match wanted {
        Some(w) => if w <= max {
            w
        } else {
            max
        },
        None => default,
    }
}

/// The settings in force after a client with the settings `info` asked for
/// `req` and the broker grants `grants`.
///
/// Every number is what the client asked for, cut down to what the broker
/// grants; without a wish the message timeout is the broker's default and
/// the other numbers stay. Of the two compressions only one is switched on:
/// deflate where both are asked for.
pub open spec fn negotiated(info: ClientInfo, req: IdentifyRequest, grants: Grants) -> ClientInfo {
    let deflate = req.deflate == Some(true);
    ClientInfo {
        heartbeat_interval: bounded(
            req.heartbeat_interval,
            info.heartbeat_interval,
            MAX_HEARTBEAT_INTERVAL,
        ),
        output_buffer_size: bounded(
            req.output_buffer_size,
            info.output_buffer_size as u64,
            grants.max_output_buffer_size as u64,
        ) as usize,
        output_buffer_timeout: bounded(
            req.output_buffer_timeout,
            info.output_buffer_timeout,
            grants.max_output_buffer_timeout,
        ),
        msg_timeout: bounded(req.msg_timeout, grants.msg_timeout, grants.max_msg_timeout),
        max_msg_timeout: grants.max_msg_timeout,
        max_rdy_count: grants.max_rdy_count,
        sample_rate: bounded(req.sample_rate, info.sample_rate as u64, MAX_SAMPLE_RATE as u64)
            as u32,
        deflate,
        snappy: !deflate && req.snappy == Some(true),
        hostname: if req.hostname is Some {
            req.hostname
        } else {
            info.hostname
        },
        user_agent: if req.user_agent is Some {
            req.user_agent
        } else {
            info.user_agent
        },
        ..info
    }
}

/// Works out the settings in force after an `IDENTIFY`.
pub fn negotiate(info: ClientInfo, req: IdentifyRequest, grants: Grants) -> (out: ClientInfo)
    ensures
        out == negotiated(info, req, grants),
{
    let deflate = match req.deflate {
        Some(d) => d,
        None => false,
    };
    let snappy = match req.snappy {
        Some(s) => s && !deflate,
        None => false,
    };
    let heartbeat_interval = bound(
        req.heartbeat_interval,
        info.heartbeat_interval,
        MAX_HEARTBEAT_INTERVAL,
    );
    let output_buffer_size = bound(
        req.output_buffer_size,
        info.output_buffer_size as u64,
        grants.max_output_buffer_size as u64,
    ) as usize;
    let output_buffer_timeout = bound(
        req.output_buffer_timeout,
        info.output_buffer_timeout,
        grants.max_output_buffer_timeout,
    );
    let msg_timeout = bound(req.msg_timeout, grants.msg_timeout, grants.max_msg_timeout);
    let sample_rate = bound(req.sample_rate, info.sample_rate as u64, MAX_SAMPLE_RATE as u64)
        as u32;
    let hostname = match req.hostname {
        Some(h) => Some(h),
        None => info.hostname,
    };
    let user_agent = match req.user_agent {
        Some(u) => Some(u),
        None => info.user_agent,
    };
    ClientInfo {
        id: info.id,
        remote_addr: info.remote_addr,
        user_agent,
        client_version: info.client_version,
        hostname,
        tls_version: info.tls_version,
        tls_cipher_suite: info.tls_cipher_suite,
        deflate,
        snappy,
        sample_rate,
        heartbeat_interval,
        output_buffer_size,
        output_buffer_timeout,
        max_rdy_count: grants.max_rdy_count,
        max_msg_timeout: grants.max_msg_timeout,
        msg_timeout,
    }
}

/// The answer to an `IDENTIFY`: a JSON object with the settings in force.
pub open spec fn identify_json(info: ClientInfo) -> Seq<u8> {
    "{\"max_rdy_count\":".spec_bytes() + crate::text::decimal_digits(info.max_rdy_count as nat)
        + ",\"msg_timeout\":".spec_bytes() + crate::text::decimal_digits(info.msg_timeout as nat)
        + ",\"max_msg_timeout\":".spec_bytes() + crate::text::decimal_digits(
        info.max_msg_timeout as nat,
    ) + ",\"heartbeat_interval\":".spec_bytes() + crate::text::decimal_digits(
        info.heartbeat_interval as nat,
    ) + ",\"output_buffer_size\":".spec_bytes() + crate::text::decimal_digits(
        info.output_buffer_size as nat,
    ) + ",\"output_buffer_timeout\":".spec_bytes() + crate::text::decimal_digits(
        info.output_buffer_timeout as nat,
    ) + ",\"sample_rate\":".spec_bytes() + crate::text::decimal_digits(info.sample_rate as nat)
        + ",\"deflate\":".spec_bytes() + json_bool(info.deflate) + ",\"snappy\":".spec_bytes()
        + json_bool(info.snappy) + "}".spec_bytes()
}

/// A truth value in JSON.
pub open spec fn json_bool(b: bool) -> Seq<u8> {
    if b {
        "true".spec_bytes()
    } else {
        "false".spec_bytes()
    }
}

fn put_text(out: &mut Vec<u8>, text: &str)
    ensures
        final(out)@ == old(out)@ + text.spec_bytes(),
{
    append_bytes(out, text.as_bytes());
}

fn put_bool(out: &mut Vec<u8>, b: bool)
    ensures
        final(out)@ == old(out)@ + json_bool(b),
{
    if b {
        put_text(out, "true");
    } else {
        put_text(out, "false");
    }
}

/// Writes the answer to an `IDENTIFY`.
pub fn identify_response(info: &ClientInfo) -> (out: Vec<u8>)
    ensures
        out@ == identify_json(*info),
{
    let mut out: Vec<u8> = Vec::new();
    put_text(&mut out, "{\"max_rdy_count\":");
    put_decimal(&mut out, info.max_rdy_count as u64);
    put_text(&mut out, ",\"msg_timeout\":");
    put_decimal(&mut out, info.msg_timeout);
    put_text(&mut out, ",\"max_msg_timeout\":");
    put_decimal(&mut out, info.max_msg_timeout);
    put_text(&mut out, ",\"heartbeat_interval\":");
    put_decimal(&mut out, info.heartbeat_interval);
    put_text(&mut out, ",\"output_buffer_size\":");
    put_decimal(&mut out, info.output_buffer_size as u64);
    put_text(&mut out, ",\"output_buffer_timeout\":");
    put_decimal(&mut out, info.output_buffer_timeout);
    put_text(&mut out, ",\"sample_rate\":");
    put_decimal(&mut out, info.sample_rate as u64);
    put_text(&mut out, ",\"deflate\":");
    put_bool(&mut out, info.deflate);
    put_text(&mut out, ",\"snappy\":");
    put_bool(&mut out, info.snappy);
    put_text(&mut out, "}");
    proof {
        assert(out@ =~= identify_json(*info));
    }
    out
}

} // verus!
