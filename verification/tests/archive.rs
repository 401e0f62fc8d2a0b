use bsa::bsa::compute_hash;
use bsa::codec::Codec;
use bsa::error::{ContentsError, ReadError, StreamError};
use bsa::flags::Version;
use bsa::read;
use std::io::Write;

const DIRECTORY_NAMES: u32 = 0x001;
const FILE_NAMES: u32 = 0x002;
const COMPRESSED: u32 = 0x004;
const XBOX360: u32 = 0x040;
const EMBEDDED_NAMES: u32 = 0x100;
const OVERRIDE: u32 = 0x4000_0000;

struct Entry {
    name: &'static str,
    region: Vec<u8>,
    flip: bool,
}

struct Dir {
    name: &'static str,
    entries: Vec<Entry>,
}

fn entry(name: &'static str, region: &[u8]) -> Entry {
    Entry { name, region: region.to_vec(), flip: false }
}

fn flipped(name: &'static str, region: &[u8]) -> Entry {
    Entry { name, region: region.to_vec(), flip: true }
}

fn put32(out: &mut Vec<u8>, value: u32, big: bool) {
    if big {
        out.extend_from_slice(&value.to_be_bytes());
    } else {
        out.extend_from_slice(&value.to_le_bytes());
    }
}

fn put64(out: &mut Vec<u8>, value: u64, big: bool) {
    if big {
        out.extend_from_slice(&value.to_be_bytes());
    } else {
        out.extend_from_slice(&value.to_le_bytes());
    }
}

fn archive(version: u32, flags: u32, dirs: &[Dir]) -> Vec<u8> {
    let big = flags & XBOX360 != 0;
    let record = if version == 105 { 24 } else { 16 };
    let mut tables = 36 + record * dirs.len();
    let mut files = 0;
    for dir in dirs {
        if flags & DIRECTORY_NAMES != 0 {
            tables += dir.name.len() + 2;
        }
        tables += 16 * dir.entries.len();
        files += dir.entries.len();
        if flags & FILE_NAMES != 0 {
            for e in &dir.entries {
                tables += e.name.len() + 1;
            }
        }
    }
    let mut out = vec![b'B', b'S', b'A', 0];
    put32(&mut out, version, false);
    put32(&mut out, 36, false);
    put32(&mut out, flags, false);
    put32(&mut out, dirs.len() as u32, big);
    put32(&mut out, files as u32, big);
    put32(&mut out, 0, big);
    put32(&mut out, 0, big);
    put32(&mut out, 0x101, false);
    for dir in dirs {
        put64(&mut out, compute_hash(dir.name), big);
        put32(&mut out, dir.entries.len() as u32, big);
        put32(&mut out, 0, big);
        if version == 105 {
            put64(&mut out, 0, big);
        }
    }
    let mut offset = tables;
    for dir in dirs {
        if flags & DIRECTORY_NAMES != 0 {
            out.push(dir.name.len() as u8 + 1);
            out.extend_from_slice(dir.name.as_bytes());
            out.push(0);
        }
        for e in &dir.entries {
            put64(&mut out, compute_hash(e.name), big);
            let size = e.region.len() as u32 | if e.flip { OVERRIDE } else { 0 };
            put32(&mut out, size, big);
            put32(&mut out, offset as u32, big);
            offset += e.region.len();
        }
    }
    if flags & FILE_NAMES != 0 {
        for dir in dirs {
            for e in &dir.entries {
                out.extend_from_slice(e.name.as_bytes());
                out.push(0);
            }
        }
    }
    assert_eq!(out.len(), tables);
    for dir in dirs {
        for e in &dir.entries {
            out.extend_from_slice(&e.region);
        }
    }
    out
}

fn hello() -> Vec<Dir> {
    vec![Dir { name: "data", entries: vec![entry("a.txt", b"hello")] }]
}

fn zlib(contents: &[u8]) -> Vec<u8> {
    let mut encoder =
        flate2::write::ZlibEncoder::new(Vec::new(), flate2::Compression::default());
    encoder.write_all(contents).unwrap();
    encoder.finish().unwrap()
}

fn lz4_frame(contents: &[u8]) -> Vec<u8> {
    let mut encoder = lz4::EncoderBuilder::new().build(Vec::new()).unwrap();
    encoder.write_all(contents).unwrap();
    let (out, result) = encoder.finish();
    result.unwrap();
    out
}

fn sized(length: u32, big: bool, stream: &[u8]) -> Vec<u8> {
    let mut region = Vec::new();
    put32(&mut region, length, big);
    region.extend_from_slice(stream);
    region
}

#[test]
fn magic_mismatch_is_missing_header() {
    let mut bytes = archive(104, DIRECTORY_NAMES | FILE_NAMES, &hello());
    bytes[0] = b'X';
    assert!(matches!(read(bytes), Err(ReadError::MissingHeader)));
}

#[test]
fn version_102_is_unknown() {
    let bytes = archive(102, DIRECTORY_NAMES | FILE_NAMES, &hello());
    assert!(matches!(read(bytes), Err(ReadError::UnknownVersion(102))));
}

#[test]
fn version_is_checked_before_the_record_offset() {
    let mut bytes = archive(106, 0, &[]);
    bytes[8] = 35;
    assert!(matches!(read(bytes), Err(ReadError::UnknownVersion(106))));
}

#[test]
fn record_offset_must_be_36() {
    let mut bytes = archive(104, DIRECTORY_NAMES | FILE_NAMES, &hello());
    bytes[8] = 37;
    assert!(matches!(
        read(bytes),
        Err(ReadError::UnexpectedFolderRecordOffset)
    ));
}

#[test]
fn short_data_is_a_reader_error() {
    let bytes = archive(104, DIRECTORY_NAMES | FILE_NAMES, &hello());
    for length in [0, 3, 4, 7, 8, 11, 12, 35, 36, 51, 52, 57, 73, 74, 79] {
        let cut = bytes[..length].to_vec();
        assert!(
            matches!(
                read(cut),
                Err(ReadError::ReaderError(StreamError::UnexpectedEof))
            ),
            "length {}",
            length
        );
    }
    assert_eq!(bytes.len(), 85);
    assert!(read(bytes[..80].to_vec()).is_ok());
}

#[test]
fn empty_archive_has_no_folders() {
    let bsa = read(archive(103, 0, &[])).unwrap();
    assert_eq!(bsa.folders().len(), 0);
    assert_eq!(bsa.folder_count(), 0);
    assert_eq!(bsa.file_count(), 0);
    assert_eq!(bsa.version(), Version::Oblivion);
}

#[test]
fn folder_hash_off_by_one_is_incorrect_hash() {
    let dirs = vec![Dir { name: "x", entries: vec![] }];
    let mut bytes = archive(104, DIRECTORY_NAMES, &dirs);
    let hash = compute_hash("x");
    bytes[36..44].copy_from_slice(&(hash - 1).to_le_bytes());
    match read(bytes) {
        Err(ReadError::IncorrectHash(e)) => {
            assert_eq!(e.actual_hash, hash - 1);
            assert_eq!(e.expected_hash, hash);
            assert_eq!(e.name, "x");
        }
        other => panic!("{:?}", other.map(|_| ())),
    }
}

#[test]
fn file_hash_off_by_one_is_incorrect_hash() {
    let mut bytes = archive(104, DIRECTORY_NAMES | FILE_NAMES, &hello());
    let hash = compute_hash("a.txt");
    bytes[58..66].copy_from_slice(&(hash + 1).to_le_bytes());
    match read(bytes) {
        Err(ReadError::IncorrectHash(e)) => {
            assert_eq!(e.actual_hash, hash + 1);
            assert_eq!(e.expected_hash, hash);
            assert_eq!(e.name, "a.txt");
        }
        other => panic!("{:?}", other.map(|_| ())),
    }
}

#[test]
fn file_hash_is_not_checked_without_file_names() {
    let mut bytes = archive(104, DIRECTORY_NAMES, &hello());
    bytes[58] ^= 1;
    let bsa = read(bytes).unwrap();
    let folders = bsa.folders();
    assert_eq!(folders[0].name(), Some("data"));
    assert_eq!(folders[0].files()[0].name(), None);
}

#[test]
fn folder_name_must_end_with_a_zero_byte() {
    let mut bytes = archive(104, DIRECTORY_NAMES | FILE_NAMES, &hello());
    assert_eq!(bytes[52], 5);
    bytes[57] = b'!';
    assert!(matches!(read(bytes), Err(ReadError::ExpectedNullByte)));
}

#[test]
fn folder_name_of_length_zero_has_no_zero_byte() {
    let mut bytes = archive(104, DIRECTORY_NAMES | FILE_NAMES, &hello());
    bytes[52] = 0;
    assert!(matches!(read(bytes), Err(ReadError::ExpectedNullByte)));
}

#[test]
fn uncompressed_round_trip() {
    let mut bsa = read(archive(104, DIRECTORY_NAMES | FILE_NAMES, &hello())).unwrap();
    let folders = bsa.folders();
    assert_eq!(folders.len(), 1);
    assert_eq!(folders[0].name(), Some("data"));
    let files = folders[0].files();
    assert_eq!(files.len(), 1);
    assert_eq!(files[0].name(), Some("a.txt"));
    assert_eq!(files[0].offset(), 80);
    assert_eq!(files[0].size(), 5);
    assert_eq!(files[0].uncompressed_size(), 5);
    assert!(!files[0].is_compressed());
    assert_eq!(files[0].codec(), Codec::Raw);
    let contents = files[0].clone().read_contents(&mut bsa).unwrap();
    assert_eq!(contents, b"hello");
    assert_eq!(contents.len() as u64, files[0].uncompressed_size());
}

#[test]
fn names_are_absent_without_the_flags() {
    let bsa = read(archive(104, 0, &hello())).unwrap();
    let folders = bsa.folders();
    assert_eq!(folders.len(), 1);
    assert_eq!(folders[0].name(), None);
    assert_eq!(folders[0].files().len(), 1);
    assert_eq!(folders[0].files()[0].name(), None);
}

#[test]
fn folders_and_files_keep_their_order() {
    let dirs = vec![
        Dir { name: "b", entries: vec![entry("z.txt", b"1"), entry("a.txt", b"22")] },
        Dir { name: "a", entries: vec![] },
        Dir { name: "c\\d", entries: vec![entry("m.nif", b"333")] },
    ];
    let mut bsa = read(archive(105, DIRECTORY_NAMES | FILE_NAMES, &dirs)).unwrap();
    let first = bsa.folders();
    let second = bsa.folders();
    let mut seen = Vec::new();
    for (folder, again) in first.iter().zip(second.iter()) {
        assert_eq!(folder.name(), again.name());
        assert_eq!(folder.files().len(), again.files().len());
        for (file, same) in folder.files().iter().zip(again.files()) {
            assert_eq!(file.name(), same.name());
            assert_eq!(file.offset(), same.offset());
            seen.push(format!("{}\\{}", folder.name().unwrap(), file.name().unwrap()));
        }
    }
    assert_eq!(seen, ["b\\z.txt", "b\\a.txt", "c\\d\\m.nif"]);
    assert_eq!(first.len(), 3);
    assert_eq!(bsa.folder_count(), 3);
    assert_eq!(bsa.file_count(), 3);
    assert_eq!(bsa.version(), Version::SkyrimSpecialEdition);
    let file = first[2].files()[0].clone();
    assert_eq!(file.read_contents(&mut bsa).unwrap(), b"333");
    let file = first[0].files()[1].clone();
    assert_eq!(file.read_contents(&mut bsa).unwrap(), b"22");
}

#[test]
fn override_bit_compresses_one_file() {
    let packed = sized(11, false, &zlib(b"hello world"));
    let dirs = vec![
        Dir { name: "data", entries: vec![flipped("a.txt", &packed), entry("b.txt", b"raw")] },
    ];
    let mut bsa = read(archive(104, DIRECTORY_NAMES | FILE_NAMES, &dirs)).unwrap();
    assert!(!bsa.archive_flags().compressed_archive);
    let folders = bsa.folders();
    let files = folders[0].files();
    assert!(files[0].is_compressed());
    assert_eq!(files[0].codec(), Codec::Zlib);
    assert_eq!(files[0].size(), packed.len() as u64 - 4);
    assert_eq!(files[0].uncompressed_size(), 11);
    assert!(!files[1].is_compressed());
    assert_eq!(files[1].size(), 3);
    assert_eq!(files[0].clone().read_contents(&mut bsa).unwrap(), b"hello world");
    assert_eq!(files[1].clone().read_contents(&mut bsa).unwrap(), b"raw");
}

#[test]
fn override_bit_leaves_one_file_raw() {
    let packed = sized(4, false, &zlib(b"abcd"));
    let dirs = vec![
        Dir { name: "data", entries: vec![flipped("a.txt", b"plain"), entry("b.txt", &packed)] },
    ];
    let mut bsa = read(archive(103, DIRECTORY_NAMES | FILE_NAMES | COMPRESSED, &dirs)).unwrap();
    assert!(bsa.archive_flags().compressed_archive);
    let folders = bsa.folders();
    let files = folders[0].files();
    assert!(!files[0].is_compressed());
    assert!(files[1].is_compressed());
    assert_eq!(files[0].clone().read_contents(&mut bsa).unwrap(), b"plain");
    assert_eq!(files[1].clone().read_contents(&mut bsa).unwrap(), b"abcd");
}

#[test]
fn version_105_is_an_lz4_frame() {
    let fixture = b"Hello, world!";
    let packed = sized(13, false, &lz4_frame(fixture));
    let dirs = vec![Dir { name: "data", entries: vec![entry("a.txt", &packed)] }];
    let mut bsa = read(archive(105, DIRECTORY_NAMES | FILE_NAMES | COMPRESSED, &dirs)).unwrap();
    let folders = bsa.folders();
    let file = folders[0].files()[0].clone();
    assert!(file.is_compressed());
    assert_eq!(file.codec(), Codec::Lz4);
    assert_eq!(file.uncompressed_size(), 13);
    let contents = file.read_contents(&mut bsa).unwrap();
    assert_eq!(contents.len(), 13);
    assert_eq!(contents, fixture);
}

#[test]
fn embedded_name_is_no_part_of_the_payload() {
    let mut region = vec![10];
    region.extend_from_slice(b"data\\a.txt");
    region.extend_from_slice(b"hello");
    let dirs = vec![Dir { name: "data", entries: vec![entry("a.txt", &region)] }];
    let flags = DIRECTORY_NAMES | FILE_NAMES | EMBEDDED_NAMES;
    let mut bsa = read(archive(104, flags, &dirs)).unwrap();
    let folders = bsa.folders();
    let file = folders[0].files()[0].clone();
    assert_eq!(file.name(), Some("a.txt"));
    assert_eq!(file.offset(), 80 + 11);
    assert_eq!(file.size(), 5);
    assert_eq!(file.read_contents(&mut bsa).unwrap(), b"hello");
}

#[test]
fn embedded_name_and_size_both_open_the_region() {
    let stream = zlib(b"hello");
    let mut region = vec![10];
    region.extend_from_slice(b"data\\a.txt");
    region.extend_from_slice(&sized(5, false, &stream));
    let dirs = vec![Dir { name: "data", entries: vec![entry("a.txt", &region)] }];
    let flags = DIRECTORY_NAMES | FILE_NAMES | EMBEDDED_NAMES | COMPRESSED;
    let mut bsa = read(archive(104, flags, &dirs)).unwrap();
    let folders = bsa.folders();
    let file = folders[0].files()[0].clone();
    assert_eq!(file.offset(), 80 + 11 + 4);
    assert_eq!(file.size(), stream.len() as u64);
    assert_eq!(file.uncompressed_size(), 5);
    assert_eq!(file.read_contents(&mut bsa).unwrap(), b"hello");
}

#[test]
fn version_103_has_no_embedded_names() {
    let dirs = vec![Dir { name: "data", entries: vec![entry("a.txt", b"\x02hello")] }];
    let flags = DIRECTORY_NAMES | FILE_NAMES | EMBEDDED_NAMES;
    let mut bsa = read(archive(103, flags, &dirs)).unwrap();
    let folders = bsa.folders();
    let file = folders[0].files()[0].clone();
    assert_eq!(file.offset(), 80);
    assert_eq!(file.size(), 6);
    assert_eq!(file.read_contents(&mut bsa).unwrap(), b"\x02hello");
}

#[test]
fn region_too_short_for_its_size_word_is_a_reader_error() {
    let dirs = vec![Dir { name: "data", entries: vec![entry("a.txt", b"abc")] }];
    let bytes = archive(104, DIRECTORY_NAMES | FILE_NAMES | COMPRESSED, &dirs);
    assert!(matches!(
        read(bytes),
        Err(ReadError::ReaderError(StreamError::UnexpectedEof))
    ));
}

#[test]
fn region_too_short_for_its_name_is_a_reader_error() {
    let dirs = vec![Dir { name: "data", entries: vec![entry("a.txt", b"\x05abc")] }];
    let bytes = archive(104, DIRECTORY_NAMES | FILE_NAMES | EMBEDDED_NAMES, &dirs);
    assert!(matches!(
        read(bytes),
        Err(ReadError::ReaderError(StreamError::UnexpectedEof))
    ));
}

#[test]
fn big_endian_archive_reads_the_same() {
    let packed = sized(11, true, &zlib(b"hello world"));
    let dirs = vec![Dir { name: "data", entries: vec![entry("a.txt", &packed)] }];
    let flags = DIRECTORY_NAMES | FILE_NAMES | COMPRESSED | XBOX360;
    let mut bsa = read(archive(104, flags, &dirs)).unwrap();
    assert!(bsa.archive_flags().xbox360_archive);
    assert_eq!(bsa.folder_count(), 1);
    assert_eq!(bsa.file_count(), 1);
    assert!(bsa.file_flags().meshes);
    assert!(bsa.file_flags().miscellaneous);
    assert!(!bsa.file_flags().textures);
    let folders = bsa.folders();
    let file = folders[0].files()[0].clone();
    assert_eq!(file.uncompressed_size(), 11);
    assert_eq!(file.read_contents(&mut bsa).unwrap(), b"hello world");
}

#[test]
fn payload_behind_the_end_is_found_when_read() {
    let mut bytes = archive(104, DIRECTORY_NAMES | FILE_NAMES, &hello());
    bytes.truncate(83);
    let mut bsa = read(bytes).unwrap();
    let folders = bsa.folders();
    let file = folders[0].files()[0].clone();
    assert_eq!(file.offset() + file.size(), 85);
    assert!(matches!(
        file.clone().payload(&mut bsa),
        Err(ContentsError::ReaderError(StreamError::UnexpectedEof))
    ));
    assert!(matches!(
        file.read_contents(&mut bsa),
        Err(ContentsError::ReaderError(StreamError::UnexpectedEof))
    ));
}

#[test]
fn payload_is_the_stored_bytes() {
    let stream = zlib(b"hello world");
    let packed = sized(11, false, &stream);
    let dirs = vec![Dir { name: "data", entries: vec![entry("a.txt", &packed)] }];
    let mut bsa = read(archive(104, DIRECTORY_NAMES | FILE_NAMES | COMPRESSED, &dirs)).unwrap();
    let folders = bsa.folders();
    let file = folders[0].files()[0].clone();
    assert_eq!(file.payload(&mut bsa).unwrap(), stream);
}

#[test]
fn broken_stream_is_a_decoder_error() {
    let packed = sized(11, false, b"\xff\xff\xff\xff\xff");
    let dirs = vec![Dir { name: "data", entries: vec![entry("a.txt", &packed)] }];
    let mut bsa = read(archive(104, DIRECTORY_NAMES | FILE_NAMES | COMPRESSED, &dirs)).unwrap();
    let folders = bsa.folders();
    let file = folders[0].files()[0].clone();
    assert!(matches!(
        file.read_contents(&mut bsa),
        Err(ContentsError::DecoderError(_))
    ));
}

#[test]
fn stated_size_is_not_held_against_the_stream() {
    let packed = sized(13, false, &zlib(b"hello"));
    let dirs = vec![Dir { name: "data", entries: vec![entry("a.txt", &packed)] }];
    let mut bsa = read(archive(104, DIRECTORY_NAMES | FILE_NAMES | COMPRESSED, &dirs)).unwrap();
    let folders = bsa.folders();
    let file = folders[0].files()[0].clone();
    assert_eq!(file.uncompressed_size(), 13);
    assert_eq!(file.read_contents(&mut bsa).unwrap(), b"hello");
}

#[test]
fn files_mut_hands_out_the_same_files() {
    let bsa = read(archive(104, DIRECTORY_NAMES | FILE_NAMES, &hello())).unwrap();
    let mut folders = bsa.folders();
    let mut names = Vec::new();
    for file in folders[0].files_mut() {
        names.push(file.name().map(|name| name.to_string()));
    }
    assert_eq!(names, [Some("a.txt".to_string())]);
    assert_eq!(folders[0].files().len(), 1);
}

#[test]
fn non_ascii_name_is_hashed_over_the_code_page() {
    let name = "dlc2mq05__0003c745_1\u{a0}.fuz";
    assert_eq!(compute_hash(name), 0x9482_28c0_6415_31a0);
    let mut bytes = archive(104, DIRECTORY_NAMES, &[Dir { name: "data", entries: vec![] }]);
    let start = bytes.len();
    bytes[16..20].copy_from_slice(&1u32.to_le_bytes());
    bytes[44..48].copy_from_slice(&1u32.to_le_bytes());
    bytes[12..16].copy_from_slice(&(DIRECTORY_NAMES | FILE_NAMES).to_le_bytes());
    bytes.extend_from_slice(&compute_hash(name).to_le_bytes());
    bytes.extend_from_slice(&0u32.to_le_bytes());
    bytes.extend_from_slice(&(start as u32 + 16 + 25).to_le_bytes());
    bytes.extend_from_slice(b"dlc2mq05__0003c745_1\xa0.fuz\0");
    let bsa = read(bytes).unwrap();
    let folders = bsa.folders();
    assert_eq!(folders[0].files()[0].name(), Some(name));
}
