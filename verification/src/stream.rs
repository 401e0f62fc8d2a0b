//! The byte source of an archive: bytes held in memory, a position in them,
//! and the reads of integers and names that move it.

use crate::cp1252::{
    decode_bytes, encode_str, lemma_encode_str_then_decode, spec_decode_bytes, spec_encode_str,
};
use crate::error::{end_of_stream, ReadError, ReadFailure, StreamError, WriteError};
use crate::flags::ArchiveFlags;
use vstd::prelude::*;
use vstd::slice::slice_subrange;

verus! {

/// Bytes with a position. The position may lie anywhere, also behind the
/// last byte; a read there fails.
#[derive(Debug)]
pub struct Cursor {
    data: Vec<u8>,
    pos: u64,
}

/// Whether integers are stored with their high byte first.
pub open spec fn is_big_endian(archive_flags: Option<ArchiveFlags>) -> bool {
    archive_flags matches Some(flags) && flags.xbox360_archive
}

/// The number that four bytes hold.
pub open spec fn spec_u32(bytes: Seq<u8>, big_endian: bool) -> u32
    recommends
        bytes.len() == 4,
{
    if big_endian {
        (bytes[3] + bytes[2] * 0x100 + bytes[1] * 0x1_0000 + bytes[0] * 0x100_0000) as u32
    } else {
        (bytes[0] + bytes[1] * 0x100 + bytes[2] * 0x1_0000 + bytes[3] * 0x100_0000) as u32
    }
}

/// The number that eight bytes hold.
pub open spec fn spec_u64(bytes: Seq<u8>, big_endian: bool) -> u64
    recommends
        bytes.len() == 8,
{
    if big_endian {
        (spec_u32(bytes.subrange(4, 8), true) + spec_u32(bytes.subrange(0, 4), true)
            * 0x1_0000_0000) as u64
    } else {
        (spec_u32(bytes.subrange(0, 4), false) + spec_u32(bytes.subrange(4, 8), false)
            * 0x1_0000_0000) as u64
    }
}

/// The `count` bytes of `data` from `pos` on, if it has that many.
pub open spec fn bytes_at(data: Seq<u8>, pos: int, count: int) -> Option<Seq<u8>> {
    if 0 <= pos && 0 <= count && pos + count <= data.len() {
        Some(data.subrange(pos, pos + count))
    } else {
        None
    }
}

/// The 32-bit number at `pos`, if `data` reaches that far.
pub open spec fn u32_at(data: Seq<u8>, pos: int, big_endian: bool) -> Option<u32> {
    match bytes_at(data, pos, 4) {
        Some(bytes) => Some(spec_u32(bytes, big_endian)),
        None => None,
    }
}

/// The 64-bit number at `pos`, if `data` reaches that far.
pub open spec fn u64_at(data: Seq<u8>, pos: int, big_endian: bool) -> Option<u64> {
    match bytes_at(data, pos, 8) {
        Some(bytes) => Some(spec_u64(bytes, big_endian)),
        None => None,
    }
}

impl Cursor {
    /// The bytes of the source. No read changes them.
    pub closed spec fn bytes(&self) -> Seq<u8> {
        self.data@
    }

    /// Where the next read starts.
    pub closed spec fn position(&self) -> nat {
        self.pos as nat
    }

    /// A source over `data`, positioned at its first byte.
    pub fn new(data: Vec<u8>) -> (cursor: Cursor)
        ensures
            cursor.bytes() == data@,
            cursor.position() == 0,
    {
        Cursor { data, pos: 0 }
    }

    /// Where the next read starts, counted from the first byte.
    pub fn stream_position(&self) -> (pos: u64)
        ensures
            pos == self.position() as int,
    {
        self.pos
    }

    /// Moves to `pos`, counted from the first byte.
    pub fn seek(&mut self, pos: u64)
        ensures
            final(self).bytes() == old(self).bytes(),
            final(self).position() == pos,
    {
        self.pos = pos;
    }

    /// How many bytes the source holds.
    pub fn len(&self) -> (len: usize)
        ensures
            len == self.bytes().len(),
    {
        self.data.len()
    }

    /// The bytes of the source.
    pub fn as_slice(&self) -> (bytes: &[u8])
        ensures
            bytes@ == self.bytes(),
    {
        self.data.as_slice()
    }

    /// Whether `count` bytes can be read at the position; if so, where they
    /// start.
    fn available(&self, count: usize) -> (start: Option<usize>)
        ensures
            match start {
                Some(at) => at == self.position() && at + count <= self.bytes().len() <= usize::MAX
                    && bytes_at(self.bytes(), self.position() as int, count as int) is Some,
                None => bytes_at(self.bytes(), self.position() as int, count as int) is None,
            },
    {
        let len = self.data.len();
        if self.pos <= len as u64 && count <= len - (self.pos as usize) {
            Some(self.pos as usize)
        } else {
            None
        }
    }

    /// Reads `count` bytes and moves behind them, or fails where it stands.
    pub fn read_bytes(&mut self, count: usize) -> (r: Result<Vec<u8>, ReadError>)
        ensures
            final(self).bytes() == old(self).bytes(),
            match r {
                Ok(bytes) => bytes_at(old(self).bytes(), old(self).position() as int, count as int)
                    == Some(bytes@) && final(self).position() == old(self).position() + count,
                Err(e) => bytes_at(old(self).bytes(), old(self).position() as int, count as int) is None
                    && e@ == end_of_stream() && final(self).position() == old(self).position() as int,
            },
    {
        match self.available(count) {
            Some(at) => {
                let bytes = vstd::slice::slice_to_vec(
                    slice_subrange(self.data.as_slice(), at, at + count),
                );
                self.pos = self.pos + count as u64;
                Ok(bytes)
            },
            None => Err(ReadError::ReaderError(StreamError::UnexpectedEof)),
        }
    }
}

/// Reads one byte.
pub fn read_u8(reader: &mut Cursor) -> (r: Result<u8, ReadError>)
    ensures
        final(reader).bytes() == old(reader).bytes(),
        match r {
            Ok(byte) => 0 <= old(reader).position() < old(reader).bytes().len() && byte == old(
                reader,
            ).bytes()[old(reader).position() as int] && final(reader).position() == old(
                reader,
            ).position() + 1,
            Err(e) => old(reader).position() >= old(reader).bytes().len() && e@ == end_of_stream()
                && final(reader).position() == old(reader).position() as int,
        },
{
    match reader.available(1) {
        Some(at) => {
            let byte = reader.data[at];
            reader.pos = reader.pos + 1;
            Ok(byte)
        },
        None => Err(ReadError::ReaderError(StreamError::UnexpectedEof)),
    }
}

/// Reads a 32-bit number, high byte first if the flags are given and say
/// so, low byte first otherwise.
pub fn read_u32(reader: &mut Cursor, archive_flags: Option<ArchiveFlags>) -> (r: Result<
    u32,
    ReadError,
>)
    ensures
        final(reader).bytes() == old(reader).bytes(),
        match r {
            Ok(value) => u32_at(
                old(reader).bytes(),
                old(reader).position() as int,
                is_big_endian(archive_flags),
            ) == Some(value) && final(reader).position() == old(reader).position() + 4,
            Err(e) => bytes_at(old(reader).bytes(), old(reader).position() as int, 4) is None && e@
                == end_of_stream() && final(reader).position() == old(reader).position() as int,
        },
{
    match reader.available(4) {
        Some(at) => {
            let b0 = reader.data[at] as u32;
            let b1 = reader.data[at + 1] as u32;
            let b2 = reader.data[at + 2] as u32;
            let b3 = reader.data[at + 3] as u32;
            reader.pos = reader.pos + 4;
            if archive_flags.is_some() && archive_flags.unwrap().xbox360_archive {
                Ok(b3 + b2 * 0x100 + b1 * 0x1_0000 + b0 * 0x100_0000)
            } else {
                Ok(b0 + b1 * 0x100 + b2 * 0x1_0000 + b3 * 0x100_0000)
            }
        },
        None => Err(ReadError::ReaderError(StreamError::UnexpectedEof)),
    }
}

/// Reads a 64-bit number, high byte first if the flags are given and say
/// so, low byte first otherwise.
pub fn read_u64(reader: &mut Cursor, archive_flags: Option<ArchiveFlags>) -> (r: Result<
    u64,
    ReadError,
>)
    ensures
        final(reader).bytes() == old(reader).bytes(),
        match r {
            Ok(value) => u64_at(
                old(reader).bytes(),
                old(reader).position() as int,
                is_big_endian(archive_flags),
            ) == Some(value) && final(reader).position() == old(reader).position() + 8,
            Err(e) => bytes_at(old(reader).bytes(), old(reader).position() as int, 8) is None && e@
                == end_of_stream() && final(reader).position() == old(reader).position() as int,
        },
{
    match reader.available(8) {
        Some(at) => {
            let ghost eight = reader.bytes().subrange(at as int, at + 8);
            let big_endian = archive_flags.is_some() && archive_flags.unwrap().xbox360_archive;
            assert(eight.subrange(0, 4) == reader.bytes().subrange(at as int, at + 4));
            assert(eight.subrange(4, 8) == reader.bytes().subrange(at + 4, at + 8));
            let first: u64 = match read_u32(reader, archive_flags) {
                Ok(value) => value as u64,
                Err(e) => {
                    return Err(e);
                },
            };
            let second: u64 = match read_u32(reader, archive_flags) {
                Ok(value) => value as u64,
                Err(e) => {
                    return Err(e);
                },
            };
            if big_endian {
                Ok(second + first * 0x1_0000_0000)
            } else {
                Ok(first + second * 0x1_0000_0000)
            }
        },
        None => Err(ReadError::ReaderError(StreamError::UnexpectedEof)),
    }
}

/// The name with a length byte before it that stands at `pos`, and where
/// the bytes behind it start. With `zero` the length counts a closing zero
/// byte, which must be there and is no part of the name.
pub open spec fn bstring_at(data: Seq<u8>, pos: int, zero: bool) -> Result<
    (Seq<char>, int),
    ReadFailure,
> {
    if !(0 <= pos < data.len()) {
        Err(end_of_stream())
    } else {
        let length = data[pos] as int;
        if zero && length == 0 {
            Err(ReadFailure::ExpectedNullByte)
        } else if pos + 1 + length > data.len() {
            Err(end_of_stream())
        } else if zero && data[pos + length] != 0 {
            Err(ReadFailure::ExpectedNullByte)
        } else if zero {
            Ok((spec_decode_bytes(data.subrange(pos + 1, pos + length)), pos + 1 + length))
        } else {
            Ok((spec_decode_bytes(data.subrange(pos + 1, pos + 1 + length)), pos + 1 + length))
        }
    }
}

/// Reads a name that has its length in a byte before it.
pub fn deserialize_bstring(bytes: &mut Cursor, zero: bool) -> (r: Result<String, ReadError>)
    ensures
        final(bytes).bytes() == old(bytes).bytes(),
        match r {
            Ok(name) => bstring_at(old(bytes).bytes(), old(bytes).position() as int, zero) == Ok::<
                (Seq<char>, int),
                ReadFailure,
            >((name@, final(bytes).position() as int)),
            Err(e) => bstring_at(old(bytes).bytes(), old(bytes).position() as int, zero) == Err::<
                (Seq<char>, int),
                ReadFailure,
            >(e@),
        },
{
    let length_byte = match read_u8(bytes) {
        Ok(byte) => byte,
        Err(e) => {
            return Err(e);
        },
    };
    if zero && length_byte == 0 {
        return Err(ReadError::ExpectedNullByte);
    }
    let name_length: usize = length_byte as usize - if zero { 1 } else { 0 };
    let encoded_filename = match bytes.read_bytes(name_length) {
        Ok(encoded) => encoded,
        Err(e) => {
            return Err(e);
        },
    };
    let decoded_name = decode_bytes(encoded_filename.as_slice());
    if zero {
        let null_byte = match read_u8(bytes) {
            Ok(byte) => byte,
            Err(e) => {
                return Err(e);
            },
        };
        if null_byte != 0 {
            return Err(ReadError::ExpectedNullByte);
        }
    }
    Ok(decoded_name)
}

/// Where the first zero byte at or behind `pos` stands, if there is one.
pub open spec fn nul_position(data: Seq<u8>, pos: int) -> Option<int>
    decreases data.len() - pos,
{
    if pos < 0 || pos >= data.len() {
        None
    } else if data[pos] == 0 {
        Some(pos)
    } else {
        nul_position(data, pos + 1)
    }
}

/// `nul_position` finds a zero byte with none before it from `pos` on, and
/// finds one whenever there is one.
pub proof fn lemma_nul_position(data: Seq<u8>, pos: int)
    requires
        0 <= pos,
    ensures
        match nul_position(data, pos) {
            Some(end) => pos <= end < data.len() && data[end] == 0 && forall|i: int|
                pos <= i < end ==> data[i] != 0,
            None => forall|i: int| pos <= i < data.len() ==> data[i] != 0,
        },
    decreases data.len() - pos,
{
    if pos < data.len() && data[pos] != 0 {
        lemma_nul_position(data, pos + 1);
    }
}

/// The name closed by a zero byte that stands at `pos`, and where the bytes
/// behind that zero byte start.
pub open spec fn cstring_at(data: Seq<u8>, pos: int) -> Result<(Seq<char>, int), ReadFailure> {
    match nul_position(data, pos) {
        Some(end) => Ok((spec_decode_bytes(data.subrange(pos, end)), end + 1)),
        None => Err(end_of_stream()),
    }
}

/// Reads a name up to the zero byte that closes it.
pub fn deserialize_null_terminated_string(bytes: &mut Cursor) -> (r: Result<String, ReadError>)
    ensures
        final(bytes).bytes() == old(bytes).bytes(),
        match r {
            Ok(name) => cstring_at(old(bytes).bytes(), old(bytes).position() as int) == Ok::<
                (Seq<char>, int),
                ReadFailure,
            >((name@, final(bytes).position() as int)),
            Err(e) => cstring_at(old(bytes).bytes(), old(bytes).position() as int) == Err::<
                (Seq<char>, int),
                ReadFailure,
            >(e@),
        },
{
    let ghost data = bytes.bytes();
    let ghost start = bytes.position() as int;
    let mut encoded_filename: Vec<u8> = Vec::new();
    loop
        invariant_except_break
            0 <= start <= bytes.position() as int,
            nul_position(data, start) == nul_position(data, bytes.position() as int),
            bytes.position() > start ==> bytes.position() <= data.len(),
            bytes.position() <= data.len() ==> encoded_filename@ == data.subrange(
                start,
                bytes.position() as int,
            ),
        invariant
            bytes.bytes() == data,
            data == old(bytes).bytes(),
            start == old(bytes).position() as int,
        ensures
            nul_position(data, start) == Some(bytes.position() - 1),
            encoded_filename@ == data.subrange(start, bytes.position() - 1),
        decreases data.len() - bytes.position() as int,
    {
        let byte = match read_u8(bytes) {
            Ok(byte) => byte,
            Err(e) => {
                return Err(e);
            },
        };
        if byte == 0 {
            break ;
        }
        encoded_filename.push(byte);
        assert(encoded_filename@ == data.subrange(start, bytes.position() as int));
    }
    Ok(decode_bytes(encoded_filename.as_slice()))
}

/// The bytes of a name with its length in a byte before it: the length, the
/// name in the code page and, with `zero`, a closing zero byte that the
/// length counts.
pub open spec fn spec_serialize_bstring(text: Seq<char>, zero: bool) -> Result<Seq<u8>, WriteError> {
    match spec_encode_str(text) {
        Err(e) => Err(WriteError::UnencodableCharacters(e)),
        Ok(encoded) => {
            let length = encoded.len() + if zero { 1int } else { 0int };
            if length > 255 {
                Err(WriteError::FileNameMoreThan255Characters)
            } else if zero {
                Ok((seq![length as u8] + encoded).push(0u8))
            } else {
                Ok(seq![length as u8] + encoded)
            }
        },
    }
}

/// Appends a name with its length in a byte before it. On an error `vec`
/// stays as it was.
pub fn serialize_bstring(s: &str, zero: bool, vec: &mut Vec<u8>) -> (r: Result<(), WriteError>)
    ensures
        match r {
            Ok(_) => spec_serialize_bstring(s@, zero) matches Ok(added) && final(vec)@ == old(vec)@
                + added,
            Err(e) => final(vec)@ == old(vec)@ && spec_serialize_bstring(s@, zero) == Err::<
                Seq<u8>,
                WriteError,
            >(e),
        },
{
    let encoded_str = match encode_str(s) {
        Ok(encoded) => encoded,
        Err(e) => {
            return Err(WriteError::UnencodableCharacters(e));
        },
    };
    if encoded_str.len() > 255 || (zero && encoded_str.len() > 254) {
        return Err(WriteError::FileNameMoreThan255Characters);
    }
    let length: usize = if zero { encoded_str.len() + 1 } else { encoded_str.len() };
    vec.push(length as u8);
    let mut i: usize = 0;
    while i < encoded_str.len()
        invariant
            i <= encoded_str.len(),
            vec@ == (old(vec)@ + seq![length as u8]) + encoded_str@.take(i as int),
        decreases encoded_str.len() - i,
    {
        vec.push(encoded_str[i]);
        i += 1;
    }
    assert(encoded_str@.take(encoded_str.len() as int) == encoded_str@);
    if zero {
        vec.push(0);
    }
    assert(final(vec)@ == old(vec)@ + spec_serialize_bstring(s@, zero)->Ok_0);
    Ok(())
}

/// A name that was written with its length before it is read back as it
/// was, from wherever it was appended.
pub proof fn lemma_bstring_round_trip(before: Seq<u8>, text: Seq<char>, zero: bool)
    ensures
        spec_serialize_bstring(text, zero) matches Ok(added) ==> bstring_at(
            before + added,
            before.len() as int,
            zero,
        ) == Ok::<(Seq<char>, int), ReadFailure>((text, (before.len() + added.len()) as int)),
{
    if let Ok(added) = spec_serialize_bstring(text, zero) {
        lemma_encode_str_then_decode(text);
        let encoded = spec_encode_str(text)->Ok_0;
        let data = before + added;
        let pos = before.len() as int;
        assert(data[pos] == added[0]);
        assert(data.subrange(pos + 1, pos + 1 + encoded.len()) == encoded);
        if zero {
            assert(data[pos + encoded.len() + 1] == added[encoded.len() as int + 1]);
        }
    }
}

/// The four bytes that hold `value`.
pub open spec fn spec_u32_bytes(value: u32, big_endian: bool) -> Seq<u8> {
    let b0 = (value % 0x100) as u8;
    let b1 = ((value / 0x100) % 0x100) as u8;
    let b2 = ((value / 0x1_0000) % 0x100) as u8;
    let b3 = (value / 0x100_0000) as u8;
    if big_endian {
        seq![b3, b2, b1, b0]
    } else {
        seq![b0, b1, b2, b3]
    }
}

/// The four bytes of a number hold that number.
pub proof fn lemma_u32_round_trip(value: u32, big_endian: bool)
    ensures
        spec_u32_bytes(value, big_endian).len() == 4,
        spec_u32(spec_u32_bytes(value, big_endian), big_endian) == value,
{
}

} // verus!
