//! The codecs of a file's payload: none, zlib, or an LZ4 frame.

use crate::error::{ContentsError, ContentsFailure, StreamError};
use crate::flags::Version;
use crate::format::FileView;
use crate::stream::bytes_at;
use std::io::Read;
use vstd::prelude::*;

verus! {

/// How a payload is stored.
#[derive(Clone, Copy, Debug, PartialEq, Eq, Structural)]
pub enum Codec {
    /// As it is.
    Raw,
    /// As a zlib stream.
    Zlib,
    /// As an LZ4 frame.
    Lz4,
}

/// The codec of a file: none if it is not compressed, LZ4 in version 105,
/// zlib before.
pub open spec fn codec_of(file: FileView) -> Codec {
    if !file.compressed {
        Codec::Raw
    } else if file.version == Version::SkyrimSpecialEdition {
        Codec::Lz4
    } else {
        Codec::Zlib
    }
}

/// What `flate2::read::ZlibDecoder` gives when it is read to its end over
/// `input`, or nothing where it fails.
pub uninterp spec fn zlib_decoded(input: Seq<u8>) -> Option<Seq<u8>>;

/// What `lz4::Decoder` gives when it is read to its end over `input`, or
/// nothing where it fails.
pub uninterp spec fn lz4_decoded(input: Seq<u8>) -> Option<Seq<u8>>;

/// Makes a `flate2::read::ZlibDecoder` over `input` and reads it to its end.
/// The contract only names what comes out: the bytes that the decoder
/// yields, or its error.
#[verifier::external_body]
fn zlib_decode(input: &[u8]) -> (r: Result<Vec<u8>, std::io::Error>)
    ensures
        match r {
            Ok(output) => zlib_decoded(input@) == Some(output@),
            Err(_) => zlib_decoded(input@) is None,
        },
{
    let mut output = Vec::new();
    flate2::read::ZlibDecoder::new(input).read_to_end(&mut output)?;
    Ok(output)
}

/// Makes an `lz4::Decoder` over `input` and reads it to its end. The
/// contract only names what comes out: the bytes that the decoder yields,
/// or its error.
#[verifier::external_body]
fn lz4_decode(input: &[u8]) -> (r: Result<Vec<u8>, std::io::Error>)
    ensures
        match r {
            Ok(output) => lz4_decoded(input@) == Some(output@),
            Err(_) => lz4_decoded(input@) is None,
        },
{
    let mut output = Vec::new();
    lz4::Decoder::new(input)?.read_to_end(&mut output)?;
    Ok(output)
}

/// The contents that a payload stands for.
pub open spec fn spec_decode(codec: Codec, payload: Seq<u8>) -> Result<Seq<u8>, ContentsFailure> {
    decoded_or_failure(
        match codec {
            Codec::Raw => Some(payload),
            Codec::Zlib => zlib_decoded(payload),
            Codec::Lz4 => lz4_decoded(payload),
        },
    )
}

/// A decoder's output as contents, its failure as that of the contents.
pub open spec fn decoded_or_failure(decoded: Option<Seq<u8>>) -> Result<Seq<u8>, ContentsFailure> {
    match decoded {
        Some(output) => Ok(output),
        None => Err(ContentsFailure::DecoderError),
    }
}

/// Hands on what a decoder gave: its output as the contents, its error as
/// the error of the contents.
pub fn decoded_contents(decoded: Result<Vec<u8>, std::io::Error>) -> (r: Result<
    Vec<u8>,
    ContentsError,
>)
    ensures
        match decoded {
            Ok(output) => r matches Ok(same) && same == output,
            Err(_) => r matches Err(e) && e@ == ContentsFailure::DecoderError,
        },
{
    match decoded {
        Ok(output) => Ok(output),
        Err(e) => Err(ContentsError::DecoderError(e)),
    }
}

/// Decodes a payload. A raw payload is its own contents.
pub fn decode(codec: Codec, payload: Vec<u8>) -> (r: Result<Vec<u8>, ContentsError>)
    ensures
        match r {
            Ok(contents) => spec_decode(codec, payload@) == Ok::<Seq<u8>, ContentsFailure>(
                contents@,
            ),
            Err(e) => spec_decode(codec, payload@) == Err::<Seq<u8>, ContentsFailure>(e@),
        },
{
    match codec {
        Codec::Raw => Ok(payload),
        Codec::Zlib => decoded_contents(zlib_decode(payload.as_slice())),
        Codec::Lz4 => decoded_contents(lz4_decode(payload.as_slice())),
    }
}

/// The contents of a file of an archive with the bytes `data`: its payload,
/// decoded. There are none where `data` does not hold the whole payload,
/// nor where the decoder fails.
pub open spec fn contents(file: FileView, data: Seq<u8>) -> Result<Seq<u8>, ContentsFailure> {
    match bytes_at(data, file.offset as int, file.size as int) {
        None => Err(ContentsFailure::ReaderError(StreamError::UnexpectedEof)),
        Some(payload) => spec_decode(codec_of(file), payload),
    }
}

} // verus!
