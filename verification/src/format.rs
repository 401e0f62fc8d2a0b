//! What the bytes of an archive mean: the header, the folder records, the
//! blocks of file records, the block of file names, and the folders and
//! files that come of them.

use crate::error::{end_of_stream, HashMismatch, ReadFailure};
use crate::flags::{ArchiveFlags, FileFlags, Version};
use crate::hash::spec_name_hash;
use crate::stream::{bstring_at, bytes_at, cstring_at, spec_u32, spec_u64, u32_at};
use vstd::prelude::*;

verus! {

/// One file record: the hash of the file's name, the size word, the offset
/// of the file's region, and the name once the block of names gave it.
pub struct FileRecordView {
    pub name_hash: u64,
    pub size: u32,
    pub offset: u32,
    pub name: Option<Seq<char>>,
}

/// One folder record with what its block added: the folder's name and its
/// file records.
pub struct FolderRecordView {
    pub name_hash: u64,
    pub name: Option<Seq<char>>,
    pub file_count: u32,
    pub offset: u64,
    pub file_records: Seq<FileRecordView>,
}

/// A file: where its payload starts and how long it is, behind the name and
/// the size that may stand before it.
pub struct FileView {
    pub name: Option<Seq<char>>,
    pub offset: u64,
    pub size: u64,
    pub compressed: bool,
    pub uncompressed_size: u64,
    pub version: Version,
}

/// A folder and its files, in the order of the archive.
pub struct FolderView {
    pub name: Option<Seq<char>>,
    pub files: Seq<FileView>,
}

/// The header and the folders.
pub struct HeaderView {
    pub version: Version,
    pub archive_flags: ArchiveFlags,
    pub folder_count: u32,
    pub file_count: u32,
    pub total_folder_name_length: u32,
    pub total_file_name_length: u32,
    pub file_flags: FileFlags,
    pub folders: Seq<FolderView>,
}

/// The four bytes that open an archive: `BSA` and a zero byte.
pub open spec fn magic() -> Seq<u8> {
    seq![0x42u8, 0x53, 0x41, 0x00]
}

/// The length of the header, and the offset of the folder records that it
/// must state.
pub open spec fn header_length() -> int {
    36
}

/// The bit of a file record's size word that turns the archive's
/// compression around for that file.
pub open spec fn override_bit() -> u32 {
    0x4000_0000
}

/// The header. Everything up to the archive flags, and the file flags, are
/// stored low byte first; the four counts between them as the archive flags
/// say.
pub open spec fn header_at_start(data: Seq<u8>) -> Result<HeaderView, ReadFailure> {
    match bytes_at(data, 0, 4) {
        None => Err(end_of_stream()),
        Some(found) => if found != magic() {
            Err(ReadFailure::MissingHeader)
        } else {
            match u32_at(data, 4, false) {
                None => Err(end_of_stream()),
                Some(number) => match Version::of_number(number) {
                    None => Err(ReadFailure::UnknownVersion(number)),
                    Some(version) => match u32_at(data, 8, false) {
                        None => Err(end_of_stream()),
                        Some(offset) => if offset != header_length() {
                            Err(ReadFailure::UnexpectedFolderRecordOffset)
                        } else if data.len() < header_length() {
                            Err(end_of_stream())
                        } else {
                            let archive_flags = ArchiveFlags::spec_deserialize(
                                spec_u32(data.subrange(12, 16), false),
                            );
                            let big_endian = archive_flags.xbox360_archive;
                            Ok(
                                HeaderView {
                                    version,
                                    archive_flags,
                                    folder_count: spec_u32(data.subrange(16, 20), big_endian),
                                    file_count: spec_u32(data.subrange(20, 24), big_endian),
                                    total_folder_name_length: spec_u32(
                                        data.subrange(24, 28),
                                        big_endian,
                                    ),
                                    total_file_name_length: spec_u32(
                                        data.subrange(28, 32),
                                        big_endian,
                                    ),
                                    file_flags: FileFlags::spec_deserialize(
                                        spec_u32(data.subrange(32, 36), false),
                                    ),
                                    folders: Seq::empty(),
                                },
                            )
                        },
                    },
                },
            }
        },
    }
}

/// Where folder record `index` starts: they follow the header, 24 bytes
/// each in version 105 and 16 bytes each before.
pub open spec fn folder_record_start(version: Version, index: int) -> int {
    if version == Version::SkyrimSpecialEdition {
        header_length() + 24 * index
    } else {
        header_length() + 16 * index
    }
}

/// The folder record that starts at `pos`: the hash of the name, the number
/// of files and the offset, which version 105 stores in 64 bits behind four
/// unused bytes.
pub open spec fn folder_record_at(
    data: Seq<u8>,
    pos: int,
    version: Version,
    big_endian: bool,
) -> FolderRecordView {
    FolderRecordView {
        name_hash: spec_u64(data.subrange(pos, pos + 8), big_endian),
        name: None,
        file_count: spec_u32(data.subrange(pos + 8, pos + 12), big_endian),
        offset: if version == Version::SkyrimSpecialEdition {
            spec_u64(data.subrange(pos + 16, pos + 24), big_endian)
        } else {
            spec_u32(data.subrange(pos + 12, pos + 16), big_endian) as u64
        },
        file_records: Seq::empty(),
    }
}

/// The folder records: as many as the header counts, if the data holds them
/// all.
pub open spec fn folder_records(data: Seq<u8>, header: HeaderView) -> Result<
    Seq<FolderRecordView>,
    ReadFailure,
> {
    if data.len() < folder_record_start(header.version, header.folder_count as int) {
        Err(end_of_stream())
    } else {
        Ok(
            Seq::new(
                header.folder_count as nat,
                |i: int|
                    folder_record_at(
                        data,
                        folder_record_start(header.version, i),
                        header.version,
                        header.archive_flags.xbox360_archive,
                    ),
            ),
        )
    }
}

/// The file record that starts at `pos`.
pub open spec fn file_record_at(data: Seq<u8>, pos: int, big_endian: bool) -> FileRecordView {
    FileRecordView {
        name_hash: spec_u64(data.subrange(pos, pos + 8), big_endian),
        size: spec_u32(data.subrange(pos + 8, pos + 12), big_endian),
        offset: spec_u32(data.subrange(pos + 12, pos + 16), big_endian),
        name: None,
    }
}

/// The failure of a name whose hash is not the stored one.
pub open spec fn incorrect_hash(stored: u64, name: Seq<char>) -> ReadFailure {
    ReadFailure::IncorrectHash(HashMismatch { stored, recomputed: spec_name_hash(name), name })
}

/// The name of a folder, which its block starts with if the archive holds
/// directory names: a name with its length before it and a zero byte behind
/// it, which must hash to what the folder's record stores. Beside the name
/// stands the position behind it.
pub open spec fn folder_name_at(
    data: Seq<u8>,
    archive_flags: ArchiveFlags,
    record: FolderRecordView,
    pos: int,
) -> Result<(Option<Seq<char>>, int), ReadFailure> {
    if archive_flags.include_directory_names {
        match bstring_at(data, pos, true) {
            Err(e) => Err(e),
            Ok((name, next)) => if spec_name_hash(name) != record.name_hash {
                Err(incorrect_hash(record.name_hash, name))
            } else {
                Ok((Some(name), next))
            },
        }
    } else {
        Ok((None, pos))
    }
}

/// The block of one folder, which starts at `pos`: the folder's name, if the
/// archive holds directory names, then the folder's file records, 16 bytes
/// each. Beside the completed record stands the position behind the block.
pub open spec fn folder_block_at(
    data: Seq<u8>,
    archive_flags: ArchiveFlags,
    record: FolderRecordView,
    pos: int,
) -> Result<(FolderRecordView, int), ReadFailure> {
    match folder_name_at(data, archive_flags, record, pos) {
        Err(e) => Err(e),
        Ok((name, start)) => if data.len() < start + 16 * record.file_count {
            Err(end_of_stream())
        } else {
            Ok(
                (
                    FolderRecordView {
                        name,
                        file_records: Seq::new(
                            record.file_count as nat,
                            |j: int|
                                file_record_at(
                                    data,
                                    start + 16 * j,
                                    archive_flags.xbox360_archive,
                                ),
                        ),
                        ..record
                    },
                    start + 16 * record.file_count,
                ),
            )
        },
    }
}

/// The blocks of the first `count` folders, one behind the other from `pos`
/// on, and the position behind the last of them. The first block that
/// fails gives the failure.
pub open spec fn folder_blocks(
    data: Seq<u8>,
    archive_flags: ArchiveFlags,
    records: Seq<FolderRecordView>,
    count: int,
    pos: int,
) -> Result<(Seq<FolderRecordView>, int), ReadFailure>
    decreases count,
{
    if count <= 0 {
        Ok((Seq::empty(), pos))
    } else {
        match folder_blocks(data, archive_flags, records, count - 1, pos) {
            Err(e) => Err(e),
            Ok((done, at)) => match folder_block_at(data, archive_flags, records[count - 1], at) {
                Err(e) => Err(e),
                Ok((block, next)) => Ok((done.push(block), next)),
            },
        }
    }
}

/// The name of one file, which starts at `pos` and ends with a zero byte.
/// It must hash to what the file's record stores.
pub open spec fn named_file_at(data: Seq<u8>, record: FileRecordView, pos: int) -> Result<
    (FileRecordView, int),
    ReadFailure,
> {
    match cstring_at(data, pos) {
        Err(e) => Err(e),
        Ok((name, next)) => if spec_name_hash(name) != record.name_hash {
            Err(incorrect_hash(record.name_hash, name))
        } else {
            Ok((FileRecordView { name: Some(name), ..record }, next))
        },
    }
}

/// The names of the first `count` files of a folder, one behind the other
/// from `pos` on.
pub open spec fn named_files(data: Seq<u8>, records: Seq<FileRecordView>, count: int, pos: int)
    -> Result<(Seq<FileRecordView>, int), ReadFailure>
    decreases count,
{
    if count <= 0 {
        Ok((Seq::empty(), pos))
    } else {
        match named_files(data, records, count - 1, pos) {
            Err(e) => Err(e),
            Ok((done, at)) => match named_file_at(data, records[count - 1], at) {
                Err(e) => Err(e),
                Ok((record, next)) => Ok((done.push(record), next)),
            },
        }
    }
}

/// The names of all files of one folder.
pub open spec fn named_folder_at(data: Seq<u8>, folder: FolderRecordView, pos: int) -> Result<
    (FolderRecordView, int),
    ReadFailure,
> {
    match named_files(data, folder.file_records, folder.file_records.len() as int, pos) {
        Err(e) => Err(e),
        Ok((file_records, next)) => Ok((FolderRecordView { file_records, ..folder }, next)),
    }
}

/// The names of the files of the first `count` folders: the block of file
/// names holds them folder by folder, in the order of the records.
pub open spec fn named_folders(
    data: Seq<u8>,
    folders: Seq<FolderRecordView>,
    count: int,
    pos: int,
) -> Result<(Seq<FolderRecordView>, int), ReadFailure>
    decreases count,
{
    if count <= 0 {
        Ok((Seq::empty(), pos))
    } else {
        match named_folders(data, folders, count - 1, pos) {
            Err(e) => Err(e),
            Ok((done, at)) => match named_folder_at(data, folders[count - 1], at) {
                Err(e) => Err(e),
                Ok((folder, next)) => Ok((done.push(folder), next)),
            },
        }
    }
}

/// The records of an archive with all the names that it holds.
pub open spec fn archive_records(data: Seq<u8>) -> Result<Seq<FolderRecordView>, ReadFailure> {
    match header_at_start(data) {
        Err(e) => Err(e),
        Ok(header) => match folder_records(data, header) {
            Err(e) => Err(e),
            Ok(records) => match folder_blocks(
                data,
                header.archive_flags,
                records,
                records.len() as int,
                folder_record_start(header.version, header.folder_count as int),
            ) {
                Err(e) => Err(e),
                Ok((blocks, names_start)) => if header.archive_flags.include_file_names {
                    match named_folders(data, blocks, blocks.len() as int, names_start) {
                        Err(e) => Err(e),
                        Ok((named, _)) => Ok(named),
                    }
                } else {
                    Ok(blocks)
                },
            },
        },
    }
}

/// Whether a file's region starts with the file's own name.
pub open spec fn has_embedded_name(archive_flags: ArchiveFlags, version: Version) -> bool {
    archive_flags.embed_file_names && version != Version::Oblivion
}

/// The file whose region of `size` bytes starts at `offset`. The region
/// starts with the file's name and its length byte, if names are embedded,
/// and then with the uncompressed size in four bytes, if the file is
/// compressed; the payload is what is left of the region. It fails where
/// the region or the data is too short for these. The data need not hold
/// the payload.
pub open spec fn file_region(
    data: Seq<u8>,
    archive_flags: ArchiveFlags,
    version: Version,
    compressed: bool,
    offset: int,
    size: int,
) -> Result<FileView, ReadFailure> {
    let embedded = has_embedded_name(archive_flags, version);
    if embedded && !(0 <= offset < data.len()) {
        Err(end_of_stream())
    } else {
        let name_length: int = if embedded { data[offset] + 1 } else { 0 };
        let prefix: int = name_length + if compressed { 4int } else { 0int };
        if size < prefix {
            Err(end_of_stream())
        } else if compressed && data.len() < offset + prefix {
            Err(end_of_stream())
        } else {
            Ok(
                FileView {
                    name: None,
                    offset: (offset + prefix) as u64,
                    size: (size - prefix) as u64,
                    compressed,
                    uncompressed_size: if compressed {
                        spec_u32(
                            data.subrange(offset + name_length, offset + prefix),
                            archive_flags.xbox360_archive,
                        ) as u64
                    } else {
                        (size - prefix) as u64
                    },
                    version,
                },
            )
        }
    }
}

/// Whether the file of a record is compressed: as the archive's flag says,
/// unless the override bit of the record's size word is set, and then the
/// other way round.
pub open spec fn record_compressed(archive_flags: ArchiveFlags, record: FileRecordView) -> bool {
    archive_flags.compressed_archive != (record.size & override_bit() != 0)
}

/// The file that a record describes: its region starts at the record's
/// offset and has the length of the record's size word without the override
/// bit; its name is the record's.
pub open spec fn file_of_record(
    data: Seq<u8>,
    archive_flags: ArchiveFlags,
    version: Version,
    record: FileRecordView,
) -> Result<FileView, ReadFailure> {
    match file_region(
        data,
        archive_flags,
        version,
        record_compressed(archive_flags, record),
        record.offset as int,
        (record.size & !override_bit()) as int,
    ) {
        Err(e) => Err(e),
        Ok(file) => Ok(FileView { name: record.name, ..file }),
    }
}

/// The files of a folder's records, if every one of them has a file.
pub open spec fn files_of_records(
    data: Seq<u8>,
    archive_flags: ArchiveFlags,
    version: Version,
    records: Seq<FileRecordView>,
) -> Result<Seq<FileView>, ReadFailure> {
    if forall|j: int|
        0 <= j < records.len() ==> file_of_record(
            data,
            archive_flags,
            version,
            #[trigger] records[j],
        ) is Ok {
        Ok(
            Seq::new(
                records.len(),
                |j: int| file_of_record(data, archive_flags, version, records[j])->Ok_0,
            ),
        )
    } else {
        Err(end_of_stream())
    }
}

/// The folder of a folder record.
pub open spec fn folder_of_record(
    data: Seq<u8>,
    archive_flags: ArchiveFlags,
    version: Version,
    record: FolderRecordView,
) -> Result<FolderView, ReadFailure> {
    match files_of_records(data, archive_flags, version, record.file_records) {
        Err(e) => Err(e),
        Ok(files) => Ok(FolderView { name: record.name, files }),
    }
}

/// The folders of the folder records, if every one of them has a folder.
pub open spec fn folders_of_records(
    data: Seq<u8>,
    archive_flags: ArchiveFlags,
    version: Version,
    records: Seq<FolderRecordView>,
) -> Result<Seq<FolderView>, ReadFailure> {
    if forall|i: int|
        0 <= i < records.len() ==> folder_of_record(
            data,
            archive_flags,
            version,
            #[trigger] records[i],
        ) is Ok {
        Ok(
            Seq::new(
                records.len(),
                |i: int| folder_of_record(data, archive_flags, version, records[i])->Ok_0,
            ),
        )
    } else {
        Err(end_of_stream())
    }
}

/// What an archive holds: its header and, from its records, its folders and
/// files. The parts are read in this order, and the first that fails gives
/// the failure: the header, the folder records, the folders' blocks, the
/// block of file names if the archive holds file names, and then each
/// file's region.
pub open spec fn archive(data: Seq<u8>) -> Result<HeaderView, ReadFailure> {
    match header_at_start(data) {
        Err(e) => Err(e),
        Ok(header) => match archive_records(data) {
            Err(e) => Err(e),
            Ok(records) => match folders_of_records(
                data,
                header.archive_flags,
                header.version,
                records,
            ) {
                Err(e) => Err(e),
                Ok(folders) => Ok(HeaderView { folders, ..header }),
            },
        },
    }
}

} // verus!
