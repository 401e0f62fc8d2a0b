//! What can go wrong while an archive is read or written.

use crate::cp1252::EncodingError;
use crate::text::{decimal_digits, push_decimal};
use vstd::prelude::*;
use vstd::string::StringExecFns;

verus! {

/// How the byte source failed.
#[derive(Clone, Copy, Debug, PartialEq, Eq, Structural)]
pub enum StreamError {
    /// The source ended before the bytes asked for.
    UnexpectedEof,
}

/// A name whose hash is not the one stored beside it.
#[derive(Debug, Clone)]
pub struct IncorrectHashError {
    /// The hash that the archive holds.
    pub actual_hash: u64,
    /// The hash of the name that the archive holds.
    pub expected_hash: u64,
    pub name: String,
}

/// Why an archive could not be read.
#[non_exhaustive]
#[derive(Debug)]
pub enum ReadError {
    /// The data does not start with `BSA` and a zero byte.
    MissingHeader,
    /// The version is none of 103, 104 and 105.
    UnknownVersion(u32),
    /// The header states another offset of the folder records than its own
    /// length.
    UnexpectedFolderRecordOffset,
    /// Kept for codecs that are not read.
    CompressionUnsupported,
    /// A name that counts its closing zero byte does not end with one.
    ExpectedNullByte,
    /// Kept for versions whose folder records have no known shape.
    FailedToReadFileOffset,
    /// The byte source failed.
    ReaderError(StreamError),
    /// A name does not hash to the hash stored for it.
    IncorrectHash(IncorrectHashError),
}

/// An `IncorrectHashError` with its name as a sequence of characters.
pub struct HashMismatch {
    /// The hash that the archive holds.
    pub stored: u64,
    /// The hash of the name that the archive holds.
    pub recomputed: u64,
    pub name: Seq<char>,
}

impl View for IncorrectHashError {
    type V = HashMismatch;

    open spec fn view(&self) -> HashMismatch {
        HashMismatch {
            stored: self.actual_hash,
            recomputed: self.expected_hash,
            name: self.name@,
        }
    }
}

/// A `ReadError` with its name as a sequence of characters.
pub enum ReadFailure {
    MissingHeader,
    UnknownVersion(u32),
    UnexpectedFolderRecordOffset,
    CompressionUnsupported,
    ExpectedNullByte,
    FailedToReadFileOffset,
    ReaderError(StreamError),
    IncorrectHash(HashMismatch),
}

impl View for ReadError {
    type V = ReadFailure;

    open spec fn view(&self) -> ReadFailure {
        match *self {
            ReadError::MissingHeader => ReadFailure::MissingHeader,
            ReadError::UnknownVersion(value) => ReadFailure::UnknownVersion(value),
            ReadError::UnexpectedFolderRecordOffset => ReadFailure::UnexpectedFolderRecordOffset,
            ReadError::CompressionUnsupported => ReadFailure::CompressionUnsupported,
            ReadError::ExpectedNullByte => ReadFailure::ExpectedNullByte,
            ReadError::FailedToReadFileOffset => ReadFailure::FailedToReadFileOffset,
            ReadError::ReaderError(e) => ReadFailure::ReaderError(e),
            ReadError::IncorrectHash(e) => ReadFailure::IncorrectHash(e@),
        }
    }
}

/// The failure of a read that ran past the end of the source.
pub open spec fn end_of_stream() -> ReadFailure {
    ReadFailure::ReaderError(StreamError::UnexpectedEof)
}

/// An error of `std::io`, carried as it came.
#[verifier::external_type_specification]
#[verifier::external_body]
pub struct ExIoError(std::io::Error);

/// Why the contents of a file could not be handed out.
#[derive(Debug)]
pub enum ContentsError {
    /// The archive's bytes do not hold the whole payload.
    ReaderError(StreamError),
    /// The decoder refused the payload; its own error says why.
    DecoderError(std::io::Error),
}

/// A `ContentsError` without what the decoder said.
pub enum ContentsFailure {
    ReaderError(StreamError),
    DecoderError,
}

impl View for ContentsError {
    type V = ContentsFailure;

    open spec fn view(&self) -> ContentsFailure {
        match *self {
            ContentsError::ReaderError(e) => ContentsFailure::ReaderError(e),
            ContentsError::DecoderError(_) => ContentsFailure::DecoderError,
        }
    }
}

/// Why an archive could not be written.
#[derive(Clone, Debug)]
pub enum WriteError {
    /// A name has a character outside the code page.
    UnencodableCharacters(EncodingError),
    /// A name and what closes it do not fit the length byte.
    FileNameMoreThan255Characters,
    /// Kept for codecs that are not written.
    CompressionUnsupported,
    /// A file that must embed its name has none.
    MissingFileName,
}

/// What a failed read says of itself.
pub open spec fn read_failure_message(failure: ReadFailure) -> Seq<char> {
    match failure {
        ReadFailure::MissingHeader => "BSA file header is missing or invalid"@,
        ReadFailure::UnknownVersion(value) => "Unknown BSA version: "@ + decimal_digits(
            value as nat,
        ),
        ReadFailure::UnexpectedFolderRecordOffset => "Unexpected folder record offset"@,
        ReadFailure::CompressionUnsupported => "Compression is not currently supported"@,
        ReadFailure::ExpectedNullByte => "Expected a null byte"@,
        ReadFailure::FailedToReadFileOffset => "Failed to read file offset"@,
        ReadFailure::ReaderError(_) => "Error reading file"@,
        ReadFailure::IncorrectHash(e) => "Incorrect hash for '"@ + e.name + "' (expected "@
            + decimal_digits(e.recomputed as nat) + ", found "@ + decimal_digits(e.stored as nat)
            + ")"@,
    }
}

/// What a failed write says of itself.
pub open spec fn write_error_message(error: WriteError) -> Seq<char> {
    match error {
        WriteError::UnencodableCharacters(_) => "Unencodable characters found"@,
        WriteError::CompressionUnsupported => "Compression is not currently supported"@,
        WriteError::FileNameMoreThan255Characters => "File name is longer than 255 characters"@,
        WriteError::MissingFileName => "Missing file name"@,
    }
}

impl StreamError {
    /// What the error says of itself.
    pub fn message(&self) -> (text: String)
        ensures
            text@ == "unexpected end of file"@,
    {
        String::from_str("unexpected end of file")
    }
}

impl ReadError {
    /// What the error says of itself. Numbers are written in decimal
    /// digits.
    pub fn message(&self) -> (text: String)
        ensures
            text@ == read_failure_message(self@),
    {
        match self {
            ReadError::MissingHeader => String::from_str("BSA file header is missing or invalid"),
            ReadError::UnknownVersion(value) => {
                let mut text = String::from_str("Unknown BSA version: ");
                push_decimal(&mut text, *value as u64);
                text
            },
            ReadError::UnexpectedFolderRecordOffset => String::from_str(
                "Unexpected folder record offset",
            ),
            ReadError::CompressionUnsupported => String::from_str(
                "Compression is not currently supported",
            ),
            ReadError::ExpectedNullByte => String::from_str("Expected a null byte"),
            ReadError::FailedToReadFileOffset => String::from_str("Failed to read file offset"),
            ReadError::ReaderError(_) => String::from_str("Error reading file"),
            ReadError::IncorrectHash(err) => {
                let mut text = String::from_str("Incorrect hash for '");
                text.append(err.name.as_str());
                text.append("' (expected ");
                push_decimal(&mut text, err.expected_hash);
                text.append(", found ");
                push_decimal(&mut text, err.actual_hash);
                text.append(")");
                text
            },
        }
    }

    /// The error that caused this one, if another did.
    pub fn source(&self) -> (cause: Option<StreamError>)
        ensures
            cause == match self@ {
                ReadFailure::ReaderError(e) => Some(e),
                _ => None,
            },
    {
        match self {
            ReadError::ReaderError(e) => Some(*e),
            _ => None,
        }
    }
}

impl WriteError {
    /// What the error says of itself.
    pub fn message(&self) -> (text: String)
        ensures
            text@ == write_error_message(*self),
    {
        match self {
            WriteError::UnencodableCharacters(_) => String::from_str(
                "Unencodable characters found",
            ),
            WriteError::CompressionUnsupported => String::from_str(
                "Compression is not currently supported",
            ),
            WriteError::FileNameMoreThan255Characters => String::from_str(
                "File name is longer than 255 characters",
            ),
            WriteError::MissingFileName => String::from_str("Missing file name"),
        }
    }

    /// The error that caused this one, if another did.
    pub fn source(&self) -> (cause: Option<EncodingError>)
        ensures
            cause == match *self {
                WriteError::UnencodableCharacters(e) => Some(e),
                _ => None,
            },
    {
        match self {
            WriteError::UnencodableCharacters(e) => Some(*e),
            _ => None,
        }
    }
}

} // verus!
