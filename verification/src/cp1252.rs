//! Windows code page 1252, the single-byte encoding of every name in an
//! archive.

use vstd::prelude::*;

verus! {

/// `String::push` appends the character to the end of the text.
pub assume_specification[ String::push ](text: &mut String, ch: char)
    ensures
        final(text)@ == old(text)@.push(ch),
;

/// Why a text cannot be written in code page 1252.
#[derive(Clone, Copy, Debug, PartialEq, Eq, Structural)]
pub enum EncodingError {
    /// The character has no byte in the code page.
    UnencodableCharacter(char),
}

/// The five bytes to which the code page assigns no character.
pub open spec fn is_undefined_byte(byte: u8) -> bool {
    byte == 0x81 || byte == 0x8D || byte == 0x8F || byte == 0x90 || byte == 0x9D
}

/// The code point that stands for `byte`. Outside `0x80..=0x9F` it is the
/// byte's own value; the five undefined bytes also keep their value.
pub open spec fn decoded_code_point(byte: u8) -> u32 {
    if byte == 0x80 {
        0x20AC
    } else if byte == 0x82 {
        0x201A
    } else if byte == 0x83 {
        0x0192
    } else if byte == 0x84 {
        0x201E
    } else if byte == 0x85 {
        0x2026
    } else if byte == 0x86 {
        0x2020
    } else if byte == 0x87 {
        0x2021
    } else if byte == 0x88 {
        0x02C6
    } else if byte == 0x89 {
        0x2030
    } else if byte == 0x8A {
        0x0160
    } else if byte == 0x8B {
        0x2039
    } else if byte == 0x8C {
        0x0152
    } else if byte == 0x8E {
        0x017D
    } else if byte == 0x91 {
        0x2018
    } else if byte == 0x92 {
        0x2019
    } else if byte == 0x93 {
        0x201C
    } else if byte == 0x94 {
        0x201D
    } else if byte == 0x95 {
        0x2022
    } else if byte == 0x96 {
        0x2013
    } else if byte == 0x97 {
        0x2014
    } else if byte == 0x98 {
        0x02DC
    } else if byte == 0x99 {
        0x2122
    } else if byte == 0x9A {
        0x0161
    } else if byte == 0x9B {
        0x203A
    } else if byte == 0x9C {
        0x0153
    } else if byte == 0x9E {
        0x017E
    } else if byte == 0x9F {
        0x0178
    } else {
        byte as u32
    }
}

/// The character that `byte` decodes to.
pub open spec fn spec_decode_byte(byte: u8) -> char {
    decoded_code_point(byte) as char
}

/// The byte that encodes `ch`, if the code page has one: the byte that
/// decodes to `ch`, the five undefined bytes left out.
pub open spec fn spec_encode_char(ch: char) -> Result<u8, EncodingError> {
    if exists|byte: u8| encodes(byte, ch) {
        Ok(choose|byte: u8| encodes(byte, ch))
    } else {
        Err(EncodingError::UnencodableCharacter(ch))
    }
}

/// `byte` is a defined position of the code page and holds `ch`.
pub open spec fn encodes(byte: u8, ch: char) -> bool {
    !is_undefined_byte(byte) && spec_decode_byte(byte) == ch
}

/// Decodes one byte. Every byte has a character.
pub fn decode_byte(byte: u8) -> (ch: char)
    ensures
        ch == spec_decode_byte(byte),
{
    match byte {
        0x80 => '\u{20AC}',
        0x82 => '\u{201A}',
        0x83 => '\u{0192}',
        0x84 => '\u{201E}',
        0x85 => '\u{2026}',
        0x86 => '\u{2020}',
        0x87 => '\u{2021}',
        0x88 => '\u{02C6}',
        0x89 => '\u{2030}',
        0x8A => '\u{0160}',
        0x8B => '\u{2039}',
        0x8C => '\u{0152}',
        0x8E => '\u{017D}',
        0x91 => '\u{2018}',
        0x92 => '\u{2019}',
        0x93 => '\u{201C}',
        0x94 => '\u{201D}',
        0x95 => '\u{2022}',
        0x96 => '\u{2013}',
        0x97 => '\u{2014}',
        0x98 => '\u{02DC}',
        0x99 => '\u{2122}',
        0x9A => '\u{0161}',
        0x9B => '\u{203A}',
        0x9C => '\u{0153}',
        0x9E => '\u{017E}',
        0x9F => '\u{0178}',
        other => other as char,
    }
}

/// Encodes one character, or says that the code page has no byte for it.
pub fn encode_char(ch: char) -> (r: Result<u8, EncodingError>)
    ensures
        r == spec_encode_char(ch),
{
    let code: u32 = ch as u32;
    let found: Option<u8> = if code < 0x80 || (0xA0 <= code && code <= 0xFF) {
        Some(code as u8)
    } else {
        match code {
            0x20AC => Some(0x80),
            0x201A => Some(0x82),
            0x0192 => Some(0x83),
            0x201E => Some(0x84),
            0x2026 => Some(0x85),
            0x2020 => Some(0x86),
            0x2021 => Some(0x87),
            0x02C6 => Some(0x88),
            0x2030 => Some(0x89),
            0x0160 => Some(0x8A),
            0x2039 => Some(0x8B),
            0x0152 => Some(0x8C),
            0x017D => Some(0x8E),
            0x2018 => Some(0x91),
            0x2019 => Some(0x92),
            0x201C => Some(0x93),
            0x201D => Some(0x94),
            0x2022 => Some(0x95),
            0x2013 => Some(0x96),
            0x2014 => Some(0x97),
            0x02DC => Some(0x98),
            0x2122 => Some(0x99),
            0x0161 => Some(0x9A),
            0x203A => Some(0x9B),
            0x0153 => Some(0x9C),
            0x017E => Some(0x9E),
            0x0178 => Some(0x9F),
            _ => None,
        }
    };
    match found {
        Some(byte) => {
            assert(encodes(byte, ch));
            assert forall|other: u8| encodes(other, ch) implies other == byte by {}
            Ok(byte)
        },
        None => {
            assert forall|other: u8| !encodes(other, ch) by {}
            Err(EncodingError::UnencodableCharacter(ch))
        },
    }
}

/// The bytes of `text` in the code page, or the error of its first character
/// that has none.
pub open spec fn spec_encode_str(text: Seq<char>) -> Result<Seq<u8>, EncodingError>
    decreases text.len(),
{
    if text.len() == 0 {
        Ok(Seq::empty())
    } else {
        match spec_encode_str(text.drop_last()) {
            Err(e) => Err(e),
            Ok(bytes) => match spec_encode_char(text.last()) {
                Ok(byte) => Ok(bytes.push(byte)),
                Err(e) => Err(e),
            },
        }
    }
}

/// A text whose prefix of `n` characters cannot be encoded fails with the
/// error of that prefix.
pub proof fn lemma_encode_str_prefix_error(text: Seq<char>, n: int)
    requires
        0 <= n <= text.len(),
        spec_encode_str(text.take(n)) is Err,
    ensures
        spec_encode_str(text) == spec_encode_str(text.take(n)),
    decreases text.len() - n,
{
    if n < text.len() {
        assert(text.drop_last().take(n) == text.take(n));
        lemma_encode_str_prefix_error(text.drop_last(), n);
    } else {
        assert(text.take(n) == text);
    }
}

/// Encodes a text, character by character.
pub fn encode_str(text: &str) -> (r: Result<Vec<u8>, EncodingError>)
    ensures
        match r {
            Ok(bytes) => spec_encode_str(text@) == Ok::<Seq<u8>, EncodingError>(bytes@),
            Err(e) => spec_encode_str(text@) == Err::<Seq<u8>, EncodingError>(e),
        },
{
    let mut bytes: Vec<u8> = Vec::new();
    for ch in it: text.chars()
        invariant
            it.seq() == text@,
            spec_encode_str(text@.take(it.index() as int)) == Ok::<Seq<u8>, EncodingError>(bytes@),
    {
        let ghost done = it.index() as int;
        assert(text@.take(done + 1).drop_last() == text@.take(done));
        match encode_char(ch) {
            Ok(byte) => bytes.push(byte),
            Err(e) => {
                proof {
                    lemma_encode_str_prefix_error(text@, done + 1);
                }
                return Err(e);
            },
        }
    }
    assert(text@.take(text@.len() as int) == text@);
    Ok(bytes)
}

/// The text that `bytes` decode to, byte by byte.
pub open spec fn spec_decode_bytes(bytes: Seq<u8>) -> Seq<char> {
    Seq::new(bytes.len(), |i: int| spec_decode_byte(bytes[i]))
}

/// Decodes a run of bytes. Every run has a text.
pub fn decode_bytes(bytes: &[u8]) -> (text: String)
    ensures
        text@ == spec_decode_bytes(bytes@),
{
    let mut text = String::new();
    let mut i: usize = 0;
    while i < bytes.len()
        invariant
            i <= bytes.len(),
            text@ == spec_decode_bytes(bytes@.take(i as int)),
        decreases bytes.len() - i,
    {
        text.push(decode_byte(bytes[i]));
        i += 1;
        assert(text@ == spec_decode_bytes(bytes@.take(i as int)));
    }
    assert(bytes@.take(bytes.len() as int) == bytes@);
    text
}

/// A defined byte is the encoding of the character it decodes to.
pub proof fn lemma_decode_then_encode(byte: u8)
    requires
        !is_undefined_byte(byte),
    ensures
        spec_encode_char(spec_decode_byte(byte)) == Ok::<u8, EncodingError>(byte),
{
    let ch = spec_decode_byte(byte);
    assert(encodes(byte, ch));
    assert forall|other: u8| encodes(other, ch) implies other == byte by {}
}

/// The byte of an encodable character decodes to that character.
pub proof fn lemma_encode_then_decode(ch: char)
    ensures
        spec_encode_char(ch) matches Ok(byte) ==> spec_decode_byte(byte) == ch && !is_undefined_byte(
            byte,
        ),
{
}

/// An encoded text has one byte for each character and decodes to itself.
pub proof fn lemma_encode_str_then_decode(text: Seq<char>)
    ensures
        spec_encode_str(text) matches Ok(bytes) ==> bytes.len() == text.len() && spec_decode_bytes(
            bytes,
        ) == text,
    decreases text.len(),
{
    if text.len() > 0 {
        lemma_encode_str_then_decode(text.drop_last());
        lemma_encode_then_decode(text.last());
        if let Ok(bytes) = spec_encode_str(text) {
            let head = spec_encode_str(text.drop_last())->Ok_0;
            assert(bytes == head.push(spec_encode_char(text.last())->Ok_0));
            assert forall|i: int| 0 <= i < text.len() implies spec_decode_bytes(bytes)[i]
                == text[i] by {
                if i < text.len() - 1 {
                    assert(spec_decode_bytes(head)[i] == text.drop_last()[i]);
                }
            }
            assert(spec_decode_bytes(bytes) =~= text);
        }
    } else {
        assert(spec_decode_bytes(Seq::<u8>::empty()) =~= text);
    }
}

/// A run of defined bytes is the encoding of the text it decodes to.
pub proof fn lemma_decode_then_encode_str(bytes: Seq<u8>)
    requires
        forall|i: int| 0 <= i < bytes.len() ==> !is_undefined_byte(#[trigger] bytes[i]),
    ensures
        spec_encode_str(spec_decode_bytes(bytes)) == Ok::<Seq<u8>, EncodingError>(bytes),
    decreases bytes.len(),
{
    let text = spec_decode_bytes(bytes);
    if bytes.len() > 0 {
        lemma_decode_then_encode_str(bytes.drop_last());
        lemma_decode_then_encode(bytes.last());
        assert(text.drop_last() =~= spec_decode_bytes(bytes.drop_last()));
        assert(bytes.drop_last().push(bytes.last()) =~= bytes);
    } else {
        assert(bytes =~= Seq::<u8>::empty());
    }
}

} // verus!
