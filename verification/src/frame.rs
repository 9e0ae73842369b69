//! Frames: the unit of traffic from the broker to a client.
//!
//! On the wire a frame is a 4-byte big-endian size, one type byte, and
//! `size - 1` bytes of body.

use crate::errors::ProtocolError;
use crate::wire::{append_bytes, be_u32, copy_range, put_u32, read_u32, u32_from_be};
use vstd::prelude::*;

verus! {

/// The bytes before a frame's body: the size field and the type byte.
pub const FRAME_HEADER_LEN: usize = 5;

/// The kind of a frame.
#[derive(Debug, Clone, Copy, PartialEq, Eq, Structural)]
pub enum FrameType {
    Response,
    Error,
    Message,
}

/// The type byte that stands for `t` on the wire.
pub open spec fn frame_type_code(t: FrameType) -> u8 {
    match t {
        FrameType::Response => 0,
        FrameType::Error => 1,
        FrameType::Message => 2,
    }
}

/// The frame type that `code` stands for, if any.
pub open spec fn frame_type_of(code: u8) -> Option<FrameType> {
    if code == 0 {
        Some(FrameType::Response)
    } else if code == 1 {
        Some(FrameType::Error)
    } else if code == 2 {
        Some(FrameType::Message)
    } else {
        None
    }
}

impl FrameType {
    /// Reads a type byte: 0, 1 and 2 are the three frame types, and any
    /// other value is an invalid-frame-type error that carries the value.
    pub fn try_from(value: u8) -> (res: Result<FrameType, ProtocolError>)
        ensures
            res == match frame_type_of(value) {
                Some(t) => Ok::<FrameType, ProtocolError>(t),
                None => Err(ProtocolError::InvalidFrameType(value)),
            },
    {
        if value == 0 {
            Ok(FrameType::Response)
        } else if value == 1 {
            Ok(FrameType::Error)
        } else if value == 2 {
            Ok(FrameType::Message)
        } else {
            Err(ProtocolError::InvalidFrameType(value))
        }
    }

    /// The type byte of this frame type.
    pub fn code(self) -> (code: u8)
        ensures
            code == frame_type_code(self),
            frame_type_of(code) == Some(self),
    {
        match self {
            FrameType::Response => 0,
            FrameType::Error => 1,
            FrameType::Message => 2,
        }
    }
}

/// A frame: its type and its body.
#[derive(Debug)]
pub struct Frame {
    pub frame_type: FrameType,
    pub body: Vec<u8>,
}

/// A frame as a mathematical value.
pub struct FrameView {
    pub frame_type: FrameType,
    pub body: Seq<u8>,
}

impl View for Frame {
    type V = FrameView;

    open spec fn view(&self) -> FrameView {
        FrameView { frame_type: self.frame_type, body: self.body@ }
    }
}

/// The wire form of a frame: size, type byte, body. The size counts the type
/// byte and the body.
pub open spec fn frame_bytes(frame: FrameView) -> Seq<u8> {
    be_u32((frame.body.len() + 1) as u32) + seq![frame_type_code(frame.frame_type)] + frame.body
}

/// A frame whose size fits the 32-bit size field.
pub open spec fn frame_fits(frame: FrameView) -> bool {
    frame.body.len() + 1 <= u32::MAX
}

/// What `data` holds as a frame.
///
/// Fewer than five bytes, a size of zero, and a size that runs past the end
/// of `data` are invalid-frame-size errors; an unknown type byte is an
/// invalid-frame-type error. Bytes after the frame are ignored.
pub open spec fn parse_frame(data: Seq<u8>) -> Result<FrameView, ProtocolError> {
    if data.len() < FRAME_HEADER_LEN {
        Err(ProtocolError::InvalidFrameSize(data.len() as usize))
    } else {
        let size = u32_from_be(data.subrange(0, 4));
        if size == 0 {
            Err(ProtocolError::InvalidFrameSize(0))
        } else {
            match frame_type_of(data[4]) {
                None => Err(ProtocolError::InvalidFrameType(data[4])),
                Some(t) => if data.len() - 4 < size {
                    Err(ProtocolError::InvalidFrameSize((data.len() - 4) as usize))
                } else {
                    Ok(FrameView { frame_type: t, body: data.subrange(5, 4 + size) })
                },
            }
        }
    }
}

/// The result of a parse, with the frame taken by its view.
pub open spec fn frame_result_view(res: Result<Frame, ProtocolError>) -> Result<
    FrameView,
    ProtocolError,
> {
    match res {
        Ok(f) => Ok(f@),
        Err(e) => Err(e),
    }
}

/// Decoding the wire form of a frame gives the frame back, whatever follows
/// it in the buffer.
pub proof fn lemma_frame_roundtrip(frame: FrameView, rest: Seq<u8>)
    requires
        frame_fits(frame),
    ensures
        parse_frame(frame_bytes(frame) + rest) == Ok::<FrameView, ProtocolError>(frame),
{
    let size = (frame.body.len() + 1) as u32;
    let data = frame_bytes(frame) + rest;
    crate::wire::lemma_u32_roundtrip(size);
    assert(data.subrange(0, 4) =~= be_u32(size));
    assert(data[4] == frame_type_code(frame.frame_type));
    assert(data.subrange(5, 4 + size) =~= frame.body);
}

impl Frame {
    /// Makes a frame of the given type and body.
    pub fn new(frame_type: FrameType, body: Vec<u8>) -> (frame: Frame)
        ensures
            frame.frame_type == frame_type,
            frame.body == body,
    {
        Frame { frame_type, body }
    }

    /// The wire form of the frame.
    pub fn to_bytes(&self) -> (out: Vec<u8>)
        requires
            frame_fits(self@),
        ensures
            out@ == frame_bytes(self@),
    {
        let mut out: Vec<u8> = Vec::new();
        put_u32(&mut out, (self.body.len() + 1) as u32);
        out.push(self.frame_type.code());
        append_bytes(&mut out, self.body.as_slice());
        proof {
            assert(out@ =~= frame_bytes(self@));
        }
        out
    }

    /// Reads the frame at the start of `data`.
    pub fn from_bytes(data: &[u8]) -> (res: Result<Frame, ProtocolError>)
        ensures
            frame_result_view(res) == parse_frame(data@),
    {
        let n = data.len();
        if n < FRAME_HEADER_LEN {
            return Err(ProtocolError::InvalidFrameSize(n));
        }
        let size = read_u32(data, 0);
        if size == 0 {
            return Err(ProtocolError::InvalidFrameSize(0));
        }
        let frame_type = match FrameType::try_from(data[4]) {
            Ok(t) => t,
            Err(e) => {
                return Err(e);
            },
        };
        if ((n - 4) as u64) < size as u64 {
            return Err(ProtocolError::InvalidFrameSize(n - 4));
        }
        let body = copy_range(data, 5, 4 + size as usize);
        Ok(Frame { frame_type, body })
    }

    /// The size of the frame on the wire, header included; `usize::MAX`
    /// where that does not fit.
    pub fn total_size(&self) -> (n: usize)
        ensures
            n == if self.body@.len() + FRAME_HEADER_LEN <= usize::MAX {
                self.body@.len() + FRAME_HEADER_LEN
            } else {
                usize::MAX as int
            },
    {
        self.body.len().saturating_add(FRAME_HEADER_LEN)
    }
}

} // verus!
