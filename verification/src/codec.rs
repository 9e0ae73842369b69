//! Streaming codecs: cutting frames out of a receive buffer, and appending
//! frames, commands and messages to a send buffer.

use crate::command::{
    command_bytes, command_extent, command_result_view, encodable, parse_command, Command, Extent,
};
use crate::errors::ProtocolError;
use crate::frame::{
    frame_bytes, frame_fits, frame_result_view, parse_frame, Frame, FrameView, FRAME_HEADER_LEN,
};
use crate::message::{message_bytes, Message};
use crate::wire::{append_bytes, read_u32, u32_from_be};
use vstd::prelude::*;
use vstd::string::*;

verus! {

/// The largest frame a decoder accepts unless told otherwise: 5 MiB.
pub const DEFAULT_MAX_FRAME_SIZE: usize = 5242880;

/// Cuts frames out of a buffer of received bytes.
pub struct NsqDecoder {
    max_frame_size: usize,
}

/// Appends frames to a buffer of bytes to send.
pub struct NsqEncoder;

/// Appends commands to a buffer of bytes to send.
pub struct CommandEncoder;

/// Appends messages to a buffer of bytes to send.
pub struct MessageEncoder;

/// The size announced by the first four bytes of `src`.
pub open spec fn announced_size(src: Seq<u8>) -> u32 {
    u32_from_be(src.subrange(0, 4))
}

/// Whether `src` holds a whole frame within the limit `max`.
pub open spec fn frame_ready(src: Seq<u8>, max: usize) -> bool {
    &&& src.len() >= FRAME_HEADER_LEN
    &&& announced_size(src) <= max
    &&& src.len() >= 4 + announced_size(src)
}

/// Whether the frame that `src` announces is larger than the limit `max`.
pub open spec fn frame_too_large(src: Seq<u8>, max: usize) -> bool {
    src.len() >= FRAME_HEADER_LEN && announced_size(src) > max
}

impl NsqDecoder {
    /// The largest frame size this decoder accepts.
    pub closed spec fn limit(self) -> usize {
        self.max_frame_size
    }

    /// A decoder with the default limit of 5 MiB.
    pub fn new() -> (d: NsqDecoder)
        ensures
            d.limit() == DEFAULT_MAX_FRAME_SIZE,
    {
        NsqDecoder { max_frame_size: DEFAULT_MAX_FRAME_SIZE }
    }

    /// A decoder with the given limit.
    pub fn with_max_frame_size(max_frame_size: usize) -> (d: NsqDecoder)
        ensures
            d.limit() == max_frame_size,
    {
        NsqDecoder { max_frame_size }
    }

    /// The largest frame size this decoder accepts.
    pub fn max_frame_size(&self) -> (max: usize)
        ensures
            max == self.limit(),
    {
        self.max_frame_size
    }

    /// Takes the next frame out of `src`.
    ///
    /// While `src` holds less than a whole frame the result is `Ok(None)`
    /// and `src` is untouched. A frame that announces more than the limit is
    /// an invalid-frame-size error that carries the announced size, and
    /// `src` is untouched. Otherwise the frame's bytes leave `src`, and the
    /// result is what they parse to.
    pub fn decode(&self, src: &mut Vec<u8>) -> (res: Result<Option<Frame>, ProtocolError>)
        ensures
            frame_too_large(old(src)@, self.limit()) ==> final(src)@ == old(src)@ && res == Err::<
                Option<Frame>,
                ProtocolError,
            >(ProtocolError::InvalidFrameSize(announced_size(old(src)@) as usize)),
            !frame_too_large(old(src)@, self.limit()) && !frame_ready(old(src)@, self.limit())
                ==> final(src)@ == old(src)@ && res == Ok::<Option<Frame>, ProtocolError>(None),
            frame_ready(old(src)@, self.limit()) ==> {
                let cut = 4 + announced_size(old(src)@);
                &&& final(src)@ == old(src)@.subrange(cut, old(src)@.len() as int)
                &&& match parse_frame(old(src)@.subrange(0, cut)) {
                    Ok(frame) => res matches Ok(Some(f)) && f@ == frame,
                    Err(e) => res == Err::<Option<Frame>, ProtocolError>(e),
                }
            },
    {
        let n = src.len();
        if n < FRAME_HEADER_LEN {
            return Ok(None);
        }
        let size = read_u32(src.as_slice(), 0);
        if size as u64 > self.max_frame_size as u64 {
            return Err(ProtocolError::InvalidFrameSize(size as usize));
        }
        if (n as u64) < 4 + size as u64 {
            return Ok(None);
        }
        let cut: usize = 4 + size as usize;
        let rest = src.split_off(cut);
        let parsed = Frame::from_bytes(src.as_slice());
        *src = rest;
        match parsed {
            Ok(frame) => Ok(Some(frame)),
            Err(e) => Err(e),
        }
    }
}

impl NsqEncoder {
    /// Appends the wire form of `item` to `dst`. A frame too large for the
    /// 32-bit size field is an invalid-frame-size error and leaves `dst` as
    /// it was.
    pub fn encode(&mut self, item: Frame, dst: &mut Vec<u8>) -> (res: Result<(), ProtocolError>)
        ensures
            frame_fits(item@) ==> res is Ok && final(dst)@ == old(dst)@ + frame_bytes(item@),
            !frame_fits(item@) ==> final(dst)@ == old(dst)@ && res == Err::<(), ProtocolError>(
                ProtocolError::InvalidFrameSize(item.body@.len() as usize),
            ),
    {
        if item.body.len() as u64 >= u32::MAX as u64 {
            return Err(ProtocolError::InvalidFrameSize(item.body.len()));
        }
        let bytes = item.to_bytes();
        append_bytes(dst, bytes.as_slice());
        Ok(())
    }
}

/// Cuts commands out of a buffer of received bytes.
pub struct CommandDecoder {
    max_command_size: usize,
}

impl CommandDecoder {
    /// The largest number of bytes that may wait for the rest of a command.
    pub closed spec fn limit(self) -> usize {
        self.max_command_size
    }

    /// A decoder that gives up on a command once more than
    /// `max_command_size` bytes wait for the rest of it.
    pub fn with_max_command_size(max_command_size: usize) -> (d: CommandDecoder)
        ensures
            d.limit() == max_command_size,
    {
        CommandDecoder { max_command_size }
    }

    /// Takes the next command out of `src`.
    ///
    /// While `src` holds less than a whole command the result is `Ok(None)`
    /// and `src` is untouched, unless more bytes wait than the decoder
    /// allows: that is an invalid-frame-size error. Bytes that do not start
    /// with a command are an invalid-command error, and `src` is untouched.
    /// Otherwise the bytes of the command leave `src`, and the result is
    /// what they parse to.
    pub fn decode(&self, src: &mut Vec<u8>) -> (res: Result<Option<Command>, ProtocolError>)
        ensures
            match command_extent(old(src)@) {
                Extent::Incomplete => final(src)@ == old(src)@ && if old(src)@.len()
                    > self.limit() {
                    res == Err::<Option<Command>, ProtocolError>(
                        ProtocolError::InvalidFrameSize(old(src)@.len() as usize),
                    )
                } else {
                    res == Ok::<Option<Command>, ProtocolError>(None)
                },
                Extent::Malformed => final(src)@ == old(src)@ && res is Err && res->Err_0
                    is InvalidCommand,
                Extent::Whole(n) => {
                    &&& final(src)@ == old(src)@.skip(n as int)
                    &&& match parse_command(old(src)@.take(n as int)) {
                        Ok(c) => res matches Ok(Some(found)) && found@ == c,
                        Err(fault) => res is Err && crate::command::fault_of(res->Err_0) == fault,
                    }
                },
            },
    {
        match Command::extent(src.as_slice()) {
            Extent::Incomplete => {
                if src.len() > self.max_command_size {
                    Err(ProtocolError::InvalidFrameSize(src.len()))
                } else {
                    Ok(None)
                }
            },
            Extent::Malformed => Err(
                ProtocolError::InvalidCommand(String::from_str("Unknown command")),
            ),
            Extent::Whole(n) => {
                let rest = src.split_off(n);
                let parsed = Command::from_bytes(src.as_slice());
                proof {
                    assert(old(src)@.subrange(0, n as int) =~= old(src)@.take(n as int));
                    assert(old(src)@.subrange(n as int, old(src)@.len() as int) =~= old(src)@.skip(
                        n as int,
                    ));
                }
                *src = rest;
                match parsed {
                    Ok(command) => Ok(Some(command)),
                    Err(e) => Err(e),
                }
            },
        }
    }
}

impl CommandEncoder {
    /// Appends the wire form of `item` to `dst`. A command with a payload
    /// too large to announce is a serialization error and leaves `dst` as it
    /// was.
    pub fn encode(&mut self, item: Command, dst: &mut Vec<u8>) -> (res: Result<(), ProtocolError>)
        ensures
            encodable(item@) ==> res is Ok && final(dst)@ == old(dst)@ + command_bytes(item@),
            !encodable(item@) ==> res is Err && res->Err_0 is Serialization,
            !encodable(item@) ==> final(dst)@ == old(dst)@,
    {
        match item.to_bytes() {
            Ok(bytes) => {
                append_bytes(dst, bytes.as_slice());
                Ok(())
            },
            Err(e) => Err(e),
        }
    }
}

impl MessageEncoder {
    /// Appends the wire form of `item` to `dst`.
    pub fn encode(&mut self, item: Message, dst: &mut Vec<u8>) -> (res: Result<(), ProtocolError>)
        ensures
            res is Ok,
            final(dst)@ == old(dst)@ + message_bytes(item@),
    {
        let bytes = item.to_bytes();
        append_bytes(dst, bytes.as_slice());
        Ok(())
    }
}

} // verus!
