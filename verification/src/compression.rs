//! Optional compression of traffic: raw deflate and snappy.

use crate::errors::ProtocolError;
use crate::wire::{bytes_equal, copy_range};
use std::io::Read;
use std::io::Write;
use vstd::prelude::*;
use vstd::string::*;

verus! {

/// The compression schemes a client can negotiate.
#[derive(Debug, Clone, Copy, PartialEq, Eq, Structural)]
pub enum CompressionType {
    Plain,
    Deflate,
    Snappy,
}

/// `b` with an ASCII capital letter turned into its small letter.
pub open spec fn ascii_lower(b: u8) -> u8 {
    if 0x41 <= b <= 0x5a {
        (b + 0x20) as u8
    } else {
        b
    }
}

/// `bytes` with every ASCII capital letter turned into its small letter.
pub open spec fn ascii_lowercase(bytes: Seq<u8>) -> Seq<u8> {
    Seq::new(bytes.len(), |i: int| ascii_lower(bytes[i]))
}

/// The bytes of the word `none`.
pub open spec fn word_none() -> Seq<u8> {
    seq![0x6eu8, 0x6f, 0x6e, 0x65]
}

/// The bytes of the word `deflate`.
pub open spec fn word_deflate() -> Seq<u8> {
    seq![0x64u8, 0x65, 0x66, 0x6c, 0x61, 0x74, 0x65]
}

/// The bytes of the word `snappy`.
pub open spec fn word_snappy() -> Seq<u8> {
    seq![0x73u8, 0x6e, 0x61, 0x70, 0x70, 0x79]
}

/// The scheme that `name` stands for, letter case aside: the empty name and
/// `none` are no compression, `deflate` and `snappy` are themselves, and any
/// other name stands for nothing.
pub open spec fn compression_named(name: Seq<u8>) -> Option<CompressionType> {
    let lower = ascii_lowercase(name);
    if lower == word_none() || lower.len() == 0 {
        Some(CompressionType::Plain)
    } else if lower == word_deflate() {
        Some(CompressionType::Deflate)
    } else if lower == word_snappy() {
        Some(CompressionType::Snappy)
    } else {
        None
    }
}

/// The raw deflate stream that `flate2` writes for `data` at its default
/// level, or `None` where it fails.
pub uninterp spec fn deflate_output(data: Seq<u8>) -> Option<Seq<u8>>;

/// What `flate2` reads out of the raw deflate stream `data`, or `None` where
/// the stream is corrupt.
pub uninterp spec fn inflate_output(data: Seq<u8>) -> Option<Seq<u8>>;

/// The snappy block that `snap` writes for `data`, or `None` where it fails.
pub uninterp spec fn snappy_output(data: Seq<u8>) -> Option<Seq<u8>>;

/// What `snap` reads out of the snappy block `data`, or `None` where the
/// block is corrupt.
pub uninterp spec fn unsnappy_output(data: Seq<u8>) -> Option<Seq<u8>>;

/// A result of one of the outside codecs agrees with its name: the same
/// bytes on success, and an error exactly where the name is `None`.
pub open spec fn agrees(res: Result<Vec<u8>, String>, named: Option<Seq<u8>>) -> bool {
    match res {
        Ok(out) => named == Some(out@),
        Err(_) => named is None,
    }
}

/// Runs `flate2::write::DeflateEncoder` at `Compression::default()` over
/// `data` (`new`, `write_all`, `finish`). The contract only names the
/// output; an error of the encoder comes back as its text.
#[verifier::external_body]
fn deflate(data: &[u8]) -> (res: Result<Vec<u8>, String>)
    ensures
        agrees(res, deflate_output(data@)),
{
    let mut encoder = flate2::write::DeflateEncoder::new(
        Vec::new(),
        flate2::Compression::default(),
    );
    match encoder.write_all(data) {
        Ok(()) => encoder.finish().map_err(|e| e.to_string()),
        Err(e) => Err(e.to_string()),
    }
}

/// Runs `flate2::read::DeflateDecoder` over `data` to its end (`new`,
/// `read_to_end`). The contract only names the output; an error of the
/// decoder comes back as its text.
#[verifier::external_body]
fn inflate(data: &[u8]) -> (res: Result<Vec<u8>, String>)
    ensures
        agrees(res, inflate_output(data@)),
{
    let mut decoder = flate2::read::DeflateDecoder::new(data);
    let mut out = Vec::new();
    match decoder.read_to_end(&mut out) {
        Ok(_) => Ok(out),
        Err(e) => Err(e.to_string()),
    }
}

/// Calls `snap::raw::Encoder::compress_vec` on `data`. The contract only
/// names the output; an error of the encoder comes back as its text.
#[verifier::external_body]
fn snappy(data: &[u8]) -> (res: Result<Vec<u8>, String>)
    ensures
        agrees(res, snappy_output(data@)),
{
    snap::raw::Encoder::new().compress_vec(data).map_err(|e| e.to_string())
}

/// Calls `snap::raw::Decoder::decompress_vec` on `data`. The contract only
/// names the output; an error of the decoder comes back as its text.
#[verifier::external_body]
fn unsnappy(data: &[u8]) -> (res: Result<Vec<u8>, String>)
    ensures
        agrees(res, unsnappy_output(data@)),
{
    snap::raw::Decoder::new().decompress_vec(data).map_err(|e| e.to_string())
}

/// What compressing `data` with `scheme` gives: the data itself without
/// compression, else what the outside codec writes.
pub open spec fn compressed(data: Seq<u8>, scheme: CompressionType) -> Option<Seq<u8>> {
    match scheme {
        CompressionType::Plain => Some(data),
        CompressionType::Deflate => deflate_output(data),
        CompressionType::Snappy => snappy_output(data),
    }
}

/// What decompressing `data` with `scheme` gives: the data itself without
/// compression, else what the outside codec reads.
pub open spec fn decompressed(data: Seq<u8>, scheme: CompressionType) -> Option<Seq<u8>> {
    match scheme {
        CompressionType::Plain => Some(data),
        CompressionType::Deflate => inflate_output(data),
        CompressionType::Snappy => unsnappy_output(data),
    }
}

/// A codec result as a protocol result: the bytes, or a compression error.
pub open spec fn codec_outcome(res: Result<Vec<u8>, ProtocolError>, named: Option<Seq<u8>>) -> bool {
    match named {
        Some(out) => res is Ok && res->Ok_0@ == out,
        None => res is Err && res->Err_0 is Compression,
    }
}

/// Turns the result of an outside codec into a protocol result.
pub fn codec_result(res: Result<Vec<u8>, String>) -> (out: Result<Vec<u8>, ProtocolError>)
    ensures
        match res {
            Ok(bytes) => out == Ok::<Vec<u8>, ProtocolError>(bytes),
            Err(text) => out == Err::<Vec<u8>, ProtocolError>(ProtocolError::Compression(text)),
        },
{
    match res {
        Ok(bytes) => Ok(bytes),
        Err(text) => Err(ProtocolError::Compression(text)),
    }
}

fn lower_byte(b: u8) -> (out: u8)
    ensures
        out == ascii_lower(b),
{
    if 0x41 <= b && b <= 0x5a {
        b + 0x20
    } else {
        b
    }
}

/// `bytes` with every ASCII capital letter turned into its small letter.
pub fn to_ascii_lowercase(bytes: &[u8]) -> (out: Vec<u8>)
    ensures
        out@ == ascii_lowercase(bytes@),
{
    let mut out: Vec<u8> = Vec::new();
    let n = bytes.len();
    let mut i: usize = 0;
    while i < n
        invariant
            i <= n,
            n == bytes@.len(),
            out@.len() == i,
            forall|k: int| 0 <= k < i ==> out@[k] == ascii_lower(bytes@[k]),
        decreases n - i,
    {
        out.push(lower_byte(bytes[i]));
        i = i + 1;
    }
    proof {
        assert(out@ =~= ascii_lowercase(bytes@));
    }
    out
}

impl CompressionType {
    /// Reads the name of a compression scheme, letter case aside. An unknown
    /// name is a compression error that tells the name.
    pub fn from_str(s: &str) -> (res: Result<CompressionType, ProtocolError>)
        ensures
            match compression_named(s.spec_bytes()) {
                Some(scheme) => res == Ok::<CompressionType, ProtocolError>(scheme),
                None => res matches Err(ProtocolError::Compression(text)) && text@
                    == "Unknown compression type: "@ + s@,
            },
    {
        let lower = to_ascii_lowercase(s.as_bytes());
        let none = vec![0x6eu8, 0x6f, 0x6e, 0x65];
        let deflate = vec![0x64u8, 0x65, 0x66, 0x6c, 0x61, 0x74, 0x65];
        let snappy = vec![0x73u8, 0x6e, 0x61, 0x70, 0x70, 0x79];
        proof {
            assert(none@ =~= word_none());
            assert(deflate@ =~= word_deflate());
            assert(snappy@ =~= word_snappy());
        }
        if lower.len() == 0 || bytes_equal(lower.as_slice(), none.as_slice()) {
            Ok(CompressionType::Plain)
        } else if bytes_equal(lower.as_slice(), deflate.as_slice()) {
            Ok(CompressionType::Deflate)
        } else if bytes_equal(lower.as_slice(), snappy.as_slice()) {
            Ok(CompressionType::Snappy)
        } else {
            let mut text = String::from_str("Unknown compression type: ");
            text.append(s);
            Err(ProtocolError::Compression(text))
        }
    }

    /// The name of the scheme.
    pub fn as_str(&self) -> (name: &'static str)
        ensures
            name@ == match *self {
                CompressionType::Plain => "none"@,
                CompressionType::Deflate => "deflate"@,
                CompressionType::Snappy => "snappy"@,
            },
    {
        match self {
            CompressionType::Plain => "none",
            CompressionType::Deflate => "deflate",
            CompressionType::Snappy => "snappy",
        }
    }
}

/// Compresses `data` with `compression`.
///
/// Without compression the result is the data. With deflate or snappy it is
/// what the outside codec writes, or a compression error where it fails.
pub fn compress(data: &[u8], compression: CompressionType) -> (res: Result<
    Vec<u8>,
    ProtocolError,
>)
    ensures
        codec_outcome(res, compressed(data@, compression)),
{
    match compression {
        CompressionType::Plain => {
            let out = copy_range(data, 0, data.len());
            proof {
                assert(out@ =~= data@);
            }
            Ok(out)
        },
        CompressionType::Deflate => codec_result(deflate(data)),
        CompressionType::Snappy => codec_result(snappy(data)),
    }
}

/// Decompresses `data` with `compression`.
///
/// Without compression the result is the data. With deflate or snappy it is
/// what the outside codec reads, or a compression error where the data is
/// corrupt.
pub fn decompress(data: &[u8], compression: CompressionType) -> (res: Result<
    Vec<u8>,
    ProtocolError,
>)
    ensures
        codec_outcome(res, decompressed(data@, compression)),
{
    match compression {
        CompressionType::Plain => {
            let out = copy_range(data, 0, data.len());
            proof {
                assert(out@ =~= data@);
            }
            Ok(out)
        },
        CompressionType::Deflate => codec_result(inflate(data)),
        CompressionType::Snappy => codec_result(unsnappy(data)),
    }
}

/// The scheme whose magic bytes open `data`.
///
/// Fewer than four bytes never count as compressed. A first byte 0x78
/// followed by 0x01, 0x5e, 0x9c or 0xda marks deflate; the four bytes `sNaP`
/// mark snappy.
pub open spec fn detected(data: Seq<u8>) -> CompressionType {
    if data.len() < 4 {
        CompressionType::Plain
    } else if data[0] == 0x78 && (data[1] == 0x01 || data[1] == 0x5e || data[1] == 0x9c || data[1]
        == 0xda) {
        CompressionType::Deflate
    } else if data[0] == 0x73 && data[1] == 0x4e && data[2] == 0x61 && data[3] == 0x50 {
        CompressionType::Snappy
    } else {
        CompressionType::Plain
    }
}

/// Guesses the compression of `data` from its first bytes.
pub fn detect_compression(data: &[u8]) -> (scheme: CompressionType)
    ensures
        scheme == detected(data@),
{
    if data.len() < 4 {
        return CompressionType::Plain;
    }
    if data[0] == 0x78 && (data[1] == 0x01 || data[1] == 0x5e || data[1] == 0x9c || data[1]
        == 0xda) {
        return CompressionType::Deflate;
    }
    if data[0] == 0x73 && data[1] == 0x4e && data[2] == 0x61 && data[3] == 0x50 {
        return CompressionType::Snappy;
    }
    CompressionType::Plain
}

} // verus!
