use bsa::bsa::{compute_hash, Bsa};
use bsa::codec::{decode, decoded_contents, Codec};
use bsa::cp1252::{decode_byte, decode_bytes, encode_char, encode_str, EncodingError};
use bsa::error::{ContentsError, ReadError, StreamError, WriteError};
use bsa::flags::{ArchiveFlags, FileFlags, Version};
use bsa::hash::{compute_hash_with_ext, hash_bytes, hash_name, hash_path, Type};
use bsa::stream::{
    deserialize_bstring, deserialize_null_terminated_string, read_u32, read_u64, read_u8,
    serialize_bstring, Cursor,
};
use std::io::Write;

fn flags(word: u32) -> ArchiveFlags {
    ArchiveFlags::deserialize(word)
}

#[test]
fn ascii_and_latin_bytes_decode_to_themselves() {
    assert_eq!(decode_byte(0x00), '\0');
    assert_eq!(decode_byte(0x41), 'A');
    assert_eq!(decode_byte(0x7f), '\u{7f}');
    assert_eq!(decode_byte(0xa0), '\u{a0}');
    assert_eq!(decode_byte(0xe9), 'é');
    assert_eq!(decode_byte(0xff), 'ÿ');
}

#[test]
fn upper_block_decodes_by_the_table() {
    let table = [
        (0x80, '€'), (0x82, '‚'), (0x83, 'ƒ'), (0x84, '„'), (0x85, '…'), (0x86, '†'),
        (0x87, '‡'), (0x88, 'ˆ'), (0x89, '‰'), (0x8a, 'Š'), (0x8b, '‹'), (0x8c, 'Œ'),
        (0x8e, 'Ž'), (0x91, '‘'), (0x92, '’'), (0x93, '“'), (0x94, '”'), (0x95, '•'),
        (0x96, '–'), (0x97, '—'), (0x98, '˜'), (0x99, '™'), (0x9a, 'š'), (0x9b, '›'),
        (0x9c, 'œ'), (0x9e, 'ž'), (0x9f, 'Ÿ'),
    ];
    for (byte, ch) in table {
        assert_eq!(decode_byte(byte), ch);
        assert_eq!(encode_char(ch), Ok(byte));
    }
}

#[test]
fn undefined_bytes_decode_but_do_not_encode() {
    for byte in [0x81u8, 0x8d, 0x8f, 0x90, 0x9d] {
        let ch = decode_byte(byte);
        assert_eq!(ch as u32, byte as u32);
        assert_eq!(encode_char(ch), Err(EncodingError::UnencodableCharacter(ch)));
    }
}

#[test]
fn every_defined_byte_survives_decoding_and_encoding() {
    for byte in 0..=255u8 {
        let ch = decode_byte(byte);
        if [0x81u8, 0x8d, 0x8f, 0x90, 0x9d].contains(&byte) {
            assert!(encode_char(ch).is_err());
        } else {
            assert_eq!(encode_char(ch), Ok(byte));
        }
    }
}

#[test]
fn characters_outside_the_code_page_do_not_encode() {
    for ch in ['\u{80}', '\u{9f}', '\u{100}', '中', '\u{10ffff}'] {
        assert_eq!(encode_char(ch), Err(EncodingError::UnencodableCharacter(ch)));
    }
}

#[test]
fn text_encodes_byte_by_byte() {
    assert_eq!(encode_str(""), Ok(vec![]));
    assert_eq!(encode_str("a€é"), Ok(vec![0x61, 0x80, 0xe9]));
    assert_eq!(
        encode_str("ab中d\u{81}"),
        Err(EncodingError::UnencodableCharacter('中'))
    );
    assert_eq!(decode_bytes(&[0x61, 0x80, 0xe9]), "a€é");
    assert_eq!(decode_bytes(&[]), "");
}

#[test]
fn hash_of_stem_and_extension() {
    assert_eq!(compute_hash_with_ext(b"", b""), 0);
    assert_eq!(compute_hash_with_ext(b"a", b""), 0x6101_0061);
    assert_eq!(compute_hash_with_ext(b"A", b""), 0x6101_0061);
    assert_eq!(compute_hash_with_ext(b"ab", b""), 0x6102_0062);
    assert_eq!(compute_hash_with_ext(b"seq", b""), 0x7303_6571);
    assert_eq!(compute_hash_with_ext(b"abc", b""), 0x6103_6263);
    assert_eq!(
        compute_hash_with_ext(b"abcd", b""),
        (0x62u64 << 32) | 0x6104_6364
    );
    assert_eq!(
        compute_hash_with_ext(b"abcde", b""),
        ((0x62u64 * 0x1003f + 0x63) << 32) | 0x6105_6465
    );
}

#[test]
fn known_extensions_mark_the_low_word() {
    let plain = compute_hash_with_ext(b"a", b".txt");
    assert_eq!(plain & 0xffff_ffff, 0x6101_0061);
    assert_eq!(compute_hash_with_ext(b"a", b".kf") & 0xffff_ffff, 0x6101_00e1);
    assert_eq!(compute_hash_with_ext(b"a", b".nif") & 0xffff_ffff, 0x6101_8061);
    assert_eq!(compute_hash_with_ext(b"a", b".NIF") & 0xffff_ffff, 0x6101_8061);
    assert_eq!(compute_hash_with_ext(b"a", b".dds") & 0xffff_ffff, 0x6101_80e1);
    assert_eq!(compute_hash_with_ext(b"a", b".wav") & 0xffff_ffff, 0xe101_0061);
    assert_eq!(compute_hash_with_ext(b"a", b".kf") >> 32, {
        let mut h: u32 = 0;
        for b in b".kf" {
            h = h.wrapping_mul(0x1003f).wrapping_add(*b as u32);
        }
        h as u64
    });
}

#[test]
fn length_byte_of_the_hash_wraps_at_256() {
    let long = vec![b'a'; 257];
    assert_eq!(compute_hash_with_ext(&long, b"") & 0x00ff_0000, 0x0001_0000);
}

#[test]
fn a_file_is_split_before_its_last_dot() {
    assert_eq!(
        hash_path(b"a.b.dds", Type::File),
        compute_hash_with_ext(b"a.b", b".dds")
    );
    assert_eq!(hash_path(b"abc", Type::File), compute_hash_with_ext(b"abc", b""));
    assert_eq!(hash_path(b".dds", Type::File), compute_hash_with_ext(b"", b".dds"));
    assert_eq!(
        hash_path(b"a.b.dds", Type::Directory),
        compute_hash_with_ext(b"a.b.dds", b"")
    );
    assert_eq!(
        hash_path(b"x/y.dds", Type::File),
        compute_hash_with_ext(b"x\\y", b".dds")
    );
}

#[test]
fn a_path_with_a_separator_is_a_directory() {
    assert_eq!(hash_bytes(b"x/y.dds"), compute_hash_with_ext(b"x\\y.dds", b""));
    assert_eq!(hash_bytes(b"x\\y.dds"), compute_hash_with_ext(b"x\\y.dds", b""));
    assert_eq!(hash_bytes(b"y.dds"), compute_hash_with_ext(b"y", b".dds"));
    assert_eq!(compute_hash("x/y.dds"), compute_hash("x\\y.dds"));
    assert_eq!(compute_hash("Y.DDS"), compute_hash("y.dds"));
}

#[test]
fn a_name_outside_the_code_page() {
    assert_eq!(
        bsa::hash::compute_hash("中.dds", Type::File),
        Err(EncodingError::UnencodableCharacter('中'))
    );
    assert_eq!(
        bsa::hash::compute_hash("a/中", Type::Directory),
        Err(EncodingError::UnencodableCharacter('中'))
    );
    assert_eq!(hash_name("中.dds"), hash_bytes("中.dds".as_bytes()));
    assert_eq!(compute_hash("中.dds"), compute_hash_with_ext("中".as_bytes(), b".dds"));
    assert_eq!(hash_name("é.dds"), compute_hash_with_ext(&[0xe9], b".dds"));
}

#[test]
fn version_numbers() {
    assert_eq!(Version::Oblivion.serialize(), 103);
    assert_eq!(Version::Skyrim.serialize(), 104);
    assert_eq!(Version::SkyrimSpecialEdition.serialize(), 105);
    assert_eq!(Version::deserialize(103).unwrap(), Version::Oblivion);
    assert_eq!(Version::deserialize(104).unwrap(), Version::Skyrim);
    assert_eq!(Version::deserialize(105).unwrap(), Version::SkyrimSpecialEdition);
    assert!(matches!(Version::deserialize(0), Err(ReadError::UnknownVersion(0))));
    assert!(matches!(Version::deserialize(106), Err(ReadError::UnknownVersion(106))));
}

#[test]
fn archive_flag_bits() {
    let none = flags(0);
    assert_eq!(none.serialize(), 0);
    assert!(flags(0x001).include_directory_names);
    assert!(flags(0x002).include_file_names);
    assert!(flags(0x004).compressed_archive);
    assert!(flags(0x008).retain_directory_names);
    assert!(flags(0x010).retain_file_names);
    assert!(flags(0x020).retain_file_name_offsets);
    assert!(flags(0x040).xbox360_archive);
    assert!(flags(0x080).retain_strings);
    assert!(flags(0x100).embed_file_names);
    assert!(flags(0x200).xmem_codec);
    assert_eq!(flags(0x004), ArchiveFlags { compressed_archive: true, ..none });
    for bit in 0..10 {
        assert_eq!(flags(1 << bit).serialize(), 1 << bit);
    }
    assert_eq!(flags(0xffff_ffff).serialize(), 0x3ff);
    assert_eq!(flags(0x2a5).serialize(), 0x2a5);
    assert_eq!(flags(flags(0x15a).serialize()), flags(0x15a));
}

#[test]
fn file_flag_bits() {
    let none = FileFlags::deserialize(0);
    assert_eq!(none.serialize(), 0);
    assert!(FileFlags::deserialize(0x001).meshes);
    assert!(FileFlags::deserialize(0x002).textures);
    assert!(FileFlags::deserialize(0x004).menus);
    assert!(FileFlags::deserialize(0x008).sounds);
    assert!(FileFlags::deserialize(0x010).voices);
    assert!(FileFlags::deserialize(0x020).shaders);
    assert!(FileFlags::deserialize(0x040).trees);
    assert!(FileFlags::deserialize(0x080).fonts);
    assert!(FileFlags::deserialize(0x100).miscellaneous);
    assert_eq!(FileFlags::deserialize(0x040), FileFlags { trees: true, ..none });
    for bit in 0..9 {
        assert_eq!(FileFlags::deserialize(1 << bit).serialize(), 1 << bit);
    }
    assert_eq!(FileFlags::deserialize(0xffff_ffff).serialize(), 0x1ff);
}

#[test]
fn integers_are_read_in_either_byte_order() {
    let data = vec![1, 2, 3, 4, 5, 6, 7, 8, 9];
    let mut cursor = Cursor::new(data.clone());
    assert_eq!(read_u8(&mut cursor).unwrap(), 1);
    assert_eq!(cursor.stream_position(), 1);
    assert_eq!(read_u32(&mut cursor, None).unwrap(), 0x0504_0302);
    assert_eq!(cursor.stream_position(), 5);
    assert_eq!(read_u32(&mut cursor, Some(flags(0x40))).unwrap(), 0x0607_0809);
    assert_eq!(cursor.stream_position(), 9);
    assert!(matches!(
        read_u8(&mut cursor),
        Err(ReadError::ReaderError(StreamError::UnexpectedEof))
    ));
    cursor.seek(1);
    assert_eq!(read_u64(&mut cursor, Some(flags(0x04))).unwrap(), 0x0908_0706_0504_0302);
    cursor.seek(0);
    assert_eq!(read_u64(&mut cursor, Some(flags(0x40))).unwrap(), 0x0102_0304_0506_0708);
    cursor.seek(2);
    assert!(matches!(
        read_u64(&mut cursor, None),
        Err(ReadError::ReaderError(StreamError::UnexpectedEof))
    ));
    assert_eq!(cursor.stream_position(), 2);
    cursor.seek(6);
    assert!(matches!(
        read_u32(&mut cursor, None),
        Err(ReadError::ReaderError(StreamError::UnexpectedEof))
    ));
    cursor.seek(u64::MAX);
    assert!(read_u8(&mut cursor).is_err());
    assert_eq!(cursor.len(), 9);
    assert_eq!(cursor.as_slice(), data);
    cursor.seek(7);
    assert_eq!(cursor.read_bytes(2).unwrap(), [8, 9]);
    assert_eq!(cursor.read_bytes(0).unwrap(), []);
    assert!(cursor.read_bytes(1).is_err());
}

#[test]
fn names_with_a_length_byte() {
    let mut cursor = Cursor::new(b"\x03ab\x80\x03ab\0\x02ab\x02a".to_vec());
    assert_eq!(deserialize_bstring(&mut cursor, false).unwrap(), "ab€");
    assert_eq!(cursor.stream_position(), 4);
    assert_eq!(deserialize_bstring(&mut cursor, true).unwrap(), "ab");
    assert_eq!(cursor.stream_position(), 8);
    assert!(matches!(
        deserialize_bstring(&mut cursor, true),
        Err(ReadError::ExpectedNullByte)
    ));
    cursor.seek(11);
    assert!(matches!(
        deserialize_bstring(&mut cursor, false),
        Err(ReadError::ReaderError(StreamError::UnexpectedEof))
    ));
    cursor.seek(11);
    assert!(matches!(
        deserialize_bstring(&mut cursor, true),
        Err(ReadError::ReaderError(StreamError::UnexpectedEof))
    ));
    cursor.seek(13);
    assert!(matches!(
        deserialize_bstring(&mut cursor, false),
        Err(ReadError::ReaderError(StreamError::UnexpectedEof))
    ));
    let mut empty = Cursor::new(vec![0, 1, 0]);
    assert_eq!(deserialize_bstring(&mut empty, false).unwrap(), "");
    assert_eq!(deserialize_bstring(&mut empty, true).unwrap(), "");
    empty.seek(0);
    assert!(matches!(
        deserialize_bstring(&mut empty, true),
        Err(ReadError::ExpectedNullByte)
    ));
}

#[test]
fn names_closed_by_a_zero_byte() {
    let mut cursor = Cursor::new(b"a\xe9\0\0bc".to_vec());
    assert_eq!(deserialize_null_terminated_string(&mut cursor).unwrap(), "aé");
    assert_eq!(cursor.stream_position(), 3);
    assert_eq!(deserialize_null_terminated_string(&mut cursor).unwrap(), "");
    assert_eq!(cursor.stream_position(), 4);
    assert!(matches!(
        deserialize_null_terminated_string(&mut cursor),
        Err(ReadError::ReaderError(StreamError::UnexpectedEof))
    ));
    cursor.seek(100);
    assert!(matches!(
        deserialize_null_terminated_string(&mut cursor),
        Err(ReadError::ReaderError(StreamError::UnexpectedEof))
    ));
}

#[test]
fn names_are_written_with_their_length() {
    let mut out = vec![9];
    serialize_bstring("ab€", false, &mut out).unwrap();
    assert_eq!(out, [9, 3, 0x61, 0x62, 0x80]);
    serialize_bstring("ab", true, &mut out).unwrap();
    assert_eq!(out, [9, 3, 0x61, 0x62, 0x80, 3, 0x61, 0x62, 0]);
    let mut cursor = Cursor::new(out.clone());
    cursor.seek(1);
    assert_eq!(deserialize_bstring(&mut cursor, false).unwrap(), "ab€");
    assert_eq!(deserialize_bstring(&mut cursor, true).unwrap(), "ab");
    assert!(matches!(
        serialize_bstring("a中", false, &mut out),
        Err(WriteError::UnencodableCharacters(EncodingError::UnencodableCharacter('中')))
    ));
    assert_eq!(out.len(), 9);
}

#[test]
fn names_longer_than_a_byte_counts_are_refused() {
    let mut out = Vec::new();
    let longest = "a".repeat(255);
    serialize_bstring(&longest, false, &mut out).unwrap();
    assert_eq!(out.len(), 256);
    assert_eq!(out[0], 255);
    assert!(matches!(
        serialize_bstring(&longest, true, &mut out),
        Err(WriteError::FileNameMoreThan255Characters)
    ));
    assert!(matches!(
        serialize_bstring(&"a".repeat(256), false, &mut out),
        Err(WriteError::FileNameMoreThan255Characters)
    ));
    assert_eq!(out.len(), 256);
    serialize_bstring(&"a".repeat(254), true, &mut out).unwrap();
    assert_eq!(out.len(), 512);
    assert_eq!(out[256], 255);
    assert_eq!(out[511], 0);
}

#[test]
fn integers_are_written_in_either_byte_order() {
    let mut out = vec![7];
    Bsa::write_u32(&mut out, 0x0102_0304, None);
    Bsa::write_u32(&mut out, 0x0102_0304, Some(flags(0x40)));
    Bsa::write_u32(&mut out, 0xffff_fffe, Some(flags(0x3bf)));
    assert_eq!(out, [7, 4, 3, 2, 1, 1, 2, 3, 4, 0xfe, 0xff, 0xff, 0xff]);
    let mut cursor = Cursor::new(out);
    cursor.seek(5);
    assert_eq!(read_u32(&mut cursor, Some(flags(0x40))).unwrap(), 0x0102_0304);
}

#[test]
fn raw_payload_is_its_own_contents() {
    assert_eq!(decode(Codec::Raw, b"hello".to_vec()).unwrap(), b"hello");
    assert_eq!(decode(Codec::Raw, vec![]).unwrap(), b"");
}

#[test]
fn zlib_payload_is_inflated() {
    let mut encoder =
        flate2::write::ZlibEncoder::new(Vec::new(), flate2::Compression::best());
    encoder.write_all(&[b'x'; 1000]).unwrap();
    let stream = encoder.finish().unwrap();
    assert!(stream.len() < 100);
    assert_eq!(decode(Codec::Zlib, stream.clone()).unwrap(), vec![b'x'; 1000]);
    assert!(matches!(
        decode(Codec::Zlib, stream[..stream.len() - 4].to_vec()),
        Err(ContentsError::DecoderError(_))
    ));
    assert!(matches!(
        decode(Codec::Zlib, b"hello".to_vec()),
        Err(ContentsError::DecoderError(_))
    ));
}

#[test]
fn lz4_payload_is_a_frame() {
    let mut encoder = lz4::EncoderBuilder::new().build(Vec::new()).unwrap();
    encoder.write_all(&[b'y'; 1000]).unwrap();
    let (frame, result) = encoder.finish();
    result.unwrap();
    assert!(frame.len() < 100);
    assert_eq!(decode(Codec::Lz4, frame).unwrap(), vec![b'y'; 1000]);
    assert!(matches!(
        decode(Codec::Lz4, b"not a frame at all".to_vec()),
        Err(ContentsError::DecoderError(_))
    ));
}

#[test]
fn a_decoder_result_is_handed_on() {
    assert_eq!(decoded_contents(Ok(vec![1, 2])).unwrap(), [1, 2]);
    let failed = decoded_contents(Err(std::io::Error::from(std::io::ErrorKind::InvalidData)));
    match failed {
        Err(ContentsError::DecoderError(e)) => {
            assert_eq!(e.kind(), std::io::ErrorKind::InvalidData)
        }
        other => panic!("{:?}", other),
    }
}
