//! The archive: its folders and files, the decoder that reads them from the
//! bytes, and the accessor that hands out a file's contents.

use crate::codec::{codec_of, contents, decode, Codec};
use crate::error::{
    ContentsError, ContentsFailure, IncorrectHashError, ReadError, ReadFailure, StreamError,
};
use crate::flags::{ArchiveFlags, FileFlags, Version};
use crate::format::{
    archive, file_of_record, file_record_at, file_region, files_of_records, folder_block_at,
    folder_blocks, folder_name_at, folder_of_record, folder_record_at, folder_record_start,
    folder_records, folders_of_records, header_at_start, header_length, incorrect_hash, magic,
    named_files, named_folder_at, named_folders, FileRecordView, FileView, FolderRecordView,
    FolderView, HeaderView,
};
use crate::hash::{hash_name, spec_name_hash};
use crate::stream::{
    bytes_at, deserialize_bstring, deserialize_null_terminated_string, is_big_endian, read_u32,
    read_u64, read_u8, spec_u32_bytes, Cursor,
};
use vstd::prelude::*;

verus! {

/// A name, if there is one, as a sequence of characters.
pub open spec fn name_view(name: Option<String>) -> Option<Seq<char>> {
    match name {
        Some(text) => Some(text@),
        None => None,
    }
}

/// A file of an archive.
#[derive(Debug)]
pub struct File {
    name: Option<String>,
    offset: u64,
    size: u64,
    compressed: bool,
    uncompressed_size: u64,
    version: Version,
}

impl View for File {
    type V = FileView;

    closed spec fn view(&self) -> FileView {
        FileView {
            name: name_view(self.name),
            offset: self.offset,
            size: self.size,
            compressed: self.compressed,
            uncompressed_size: self.uncompressed_size,
            version: self.version,
        }
    }
}

impl File {
    /// A file that is not compressed has the size of its payload.
    #[verifier::type_invariant]
    spec fn sized(self) -> bool {
        !self.compressed ==> self.uncompressed_size == self.size
    }
}

/// The files of a folder, each as its view.
pub open spec fn file_views(files: Seq<File>) -> Seq<FileView> {
    Seq::new(files.len(), |i: int| files[i]@)
}

/// A folder of an archive.
#[derive(Debug)]
pub struct Folder {
    name: Option<String>,
    files: Vec<File>,
}

impl View for Folder {
    type V = FolderView;

    closed spec fn view(&self) -> FolderView {
        FolderView { name: name_view(self.name), files: file_views(self.files@) }
    }
}

/// The folders of an archive, each as its view.
pub open spec fn folder_views(folders: Seq<Folder>) -> Seq<FolderView> {
    Seq::new(folders.len(), |i: int| folders[i]@)
}

#[derive(Debug)]
struct BsaHeader {
    version: Version,
    archive_flags: ArchiveFlags,
    folder_count: u32,
    file_count: u32,
    total_folder_name_length: u32,
    total_file_name_length: u32,
    file_flags: FileFlags,
    folders: Vec<Folder>,
}

impl View for BsaHeader {
    type V = HeaderView;

    closed spec fn view(&self) -> HeaderView {
        HeaderView {
            version: self.version,
            archive_flags: self.archive_flags,
            folder_count: self.folder_count,
            file_count: self.file_count,
            total_folder_name_length: self.total_folder_name_length,
            total_file_name_length: self.total_file_name_length,
            file_flags: self.file_flags,
            folders: folder_views(self.folders@),
        }
    }
}

/// An archive that was read: its header with the folders, and the bytes
/// that the contents of its files are taken from.
#[derive(Debug)]
pub struct Bsa {
    header: BsaHeader,
    reader: Cursor,
}

#[derive(Debug)]
struct FileRecord {
    name_hash: u64,
    size: u32,
    offset: u32,
    name: Option<String>,
}

impl View for FileRecord {
    type V = FileRecordView;

    closed spec fn view(&self) -> FileRecordView {
        FileRecordView {
            name_hash: self.name_hash,
            size: self.size,
            offset: self.offset,
            name: name_view(self.name),
        }
    }
}

spec fn file_record_views(records: Seq<FileRecord>) -> Seq<FileRecordView> {
    Seq::new(records.len(), |i: int| records[i]@)
}

#[derive(Debug)]
struct FolderRecord {
    name_hash: u64,
    name: Option<String>,
    file_count: u32,
    offset: u64,
    file_records: Vec<FileRecord>,
}

impl View for FolderRecord {
    type V = FolderRecordView;

    closed spec fn view(&self) -> FolderRecordView {
        FolderRecordView {
            name_hash: self.name_hash,
            name: name_view(self.name),
            file_count: self.file_count,
            offset: self.offset,
            file_records: file_record_views(self.file_records@),
        }
    }
}

spec fn folder_record_views(records: Seq<FolderRecord>) -> Seq<FolderRecordView> {
    Seq::new(records.len(), |i: int| records[i]@)
}

/// Reads the header's 36 bytes.
fn read_header_fields(data: &mut Cursor) -> (r: Result<BsaHeader, ReadError>)
    requires
        old(data).position() == 0,
    ensures
        final(data).bytes() == old(data).bytes(),
        match r {
            Ok(header) => header_at_start(old(data).bytes()) == Ok::<HeaderView, ReadFailure>(
                header@,
            ) && final(data).position() == header_length() <= old(data).bytes().len(),
            Err(e) => header_at_start(old(data).bytes()) == Err::<HeaderView, ReadFailure>(e@),
        },
{
    let found = match data.read_bytes(4) {
        Ok(found) => found,
        Err(e) => {
            return Err(e);
        },
    };
    if !(found[0] == 0x42 && found[1] == 0x53 && found[2] == 0x41 && found[3] == 0x00) {
        assert(magic()[0] == 0x42 && magic()[1] == 0x53 && magic()[2] == 0x41 && magic()[3]
            == 0x00);
        return Err(ReadError::MissingHeader);
    }
    assert(found@ =~= magic());
    let version_num = match read_u32(data, None) {
        Ok(value) => value,
        Err(e) => {
            return Err(e);
        },
    };
    let version = match Version::deserialize(version_num) {
        Ok(version) => version,
        Err(e) => {
            return Err(e);
        },
    };
    let offset = match read_u32(data, None) {
        Ok(value) => value,
        Err(e) => {
            return Err(e);
        },
    };
    if offset != 36 {
        return Err(ReadError::UnexpectedFolderRecordOffset);
    }
    let archive_flags_u32 = match read_u32(data, None) {
        Ok(value) => value,
        Err(e) => {
            return Err(e);
        },
    };
    let archive_flags = ArchiveFlags::deserialize(archive_flags_u32);
    let folder_count = match read_u32(data, Some(archive_flags)) {
        Ok(value) => value,
        Err(e) => {
            return Err(e);
        },
    };
    let file_count = match read_u32(data, Some(archive_flags)) {
        Ok(value) => value,
        Err(e) => {
            return Err(e);
        },
    };
    let total_folder_name_length = match read_u32(data, Some(archive_flags)) {
        Ok(value) => value,
        Err(e) => {
            return Err(e);
        },
    };
    let total_file_name_length = match read_u32(data, Some(archive_flags)) {
        Ok(value) => value,
        Err(e) => {
            return Err(e);
        },
    };
    let file_flags_u32 = match read_u32(data, None) {
        Ok(value) => value,
        Err(e) => {
            return Err(e);
        },
    };
    let file_flags = FileFlags::deserialize(file_flags_u32);
    let header = BsaHeader {
        version,
        archive_flags,
        folder_count,
        file_count,
        total_folder_name_length,
        total_file_name_length,
        file_flags,
        folders: Vec::new(),
    };
    assert(header@.folders =~= Seq::<FolderView>::empty());
    Ok(header)
}

/// Reads the folder records that follow the header.
fn read_folder_records(data: &mut Cursor, header: &BsaHeader) -> (r: Result<
    Vec<FolderRecord>,
    ReadError,
>)
    requires
        old(data).position() == header_length() <= old(data).bytes().len(),
    ensures
        final(data).bytes() == old(data).bytes(),
        match r {
            Ok(records) => folder_records(old(data).bytes(), header@) == Ok::<
                Seq<FolderRecordView>,
                ReadFailure,
            >(folder_record_views(records@)) && final(data).position() == folder_record_start(
                header@.version,
                header@.folder_count as int,
            ) <= old(data).bytes().len(),
            Err(e) => folder_records(old(data).bytes(), header@) == Err::<
                Seq<FolderRecordView>,
                ReadFailure,
            >(e@),
        },
{
    let ghost bytes = data.bytes();
    let version = header.version;
    let flags = Some(header.archive_flags);
    let ghost big_endian = header.archive_flags.xbox360_archive;
    let mut records: Vec<FolderRecord> = Vec::new();
    let mut i: u32 = 0;
    while i < header.folder_count
        invariant
            i <= header.folder_count,
            data.bytes() == bytes,
            bytes == old(data).bytes(),
            version == header.version,
            flags == Some(header.archive_flags),
            big_endian == header.archive_flags.xbox360_archive,
            data.position() == folder_record_start(version, i as int) <= bytes.len(),
            records.len() == i,
            forall|k: int|
                0 <= k < i ==> (#[trigger] records[k])@ == folder_record_at(
                    bytes,
                    folder_record_start(version, k),
                    version,
                    big_endian,
                ),
        decreases header.folder_count - i,
    {
        let name_hash = match read_u64(data, flags) {
            Ok(value) => value,
            Err(e) => {
                return Err(e);
            },
        };
        let file_count = match read_u32(data, flags) {
            Ok(value) => value,
            Err(e) => {
                return Err(e);
            },
        };
        let old_file_offset = match read_u32(data, flags) {
            Ok(value) => value,
            Err(e) => {
                return Err(e);
            },
        };
        let offset = match version {
            Version::Oblivion | Version::Skyrim => old_file_offset as u64,
            Version::SkyrimSpecialEdition => match read_u64(data, flags) {
                Ok(value) => value,
                Err(e) => {
                    return Err(e);
                },
            },
        };
        let record = FolderRecord {
            name_hash,
            file_count,
            offset,
            file_records: Vec::new(),
            name: None,
        };
        assert(record@.file_records =~= Seq::<FileRecordView>::empty());
        records.push(record);
        i += 1;
    }
    assert(folder_record_views(records@) =~= folder_records(bytes, header@)->Ok_0);
    Ok(records)
}

/// Hashes a name as the archive does: over its bytes in the code page, `/`
/// read as `\`, as a directory if it holds a separator and as a file, split
/// before its last dot, otherwise.
pub fn compute_hash(name: &str) -> (hash: u64)
    ensures
        hash == spec_name_hash(name@),
{
    hash_name(name)
}

/// Checks a name that was read against the hash stored for it.
fn check_hash(name: String, stored: u64) -> (r: Result<String, ReadError>)
    ensures
        match r {
            Ok(same) => same == name && spec_name_hash(name@) == stored,
            Err(e) => spec_name_hash(name@) != stored && e@ == incorrect_hash(stored, name@),
        },
{
    let computed_hash = compute_hash(name.as_str());
    if computed_hash != stored {
        Err(
            ReadError::IncorrectHash(
                IncorrectHashError { actual_hash: stored, expected_hash: computed_hash, name },
            ),
        )
    } else {
        Ok(name)
    }
}

/// Reads the block of one folder: its name, if the archive holds directory
/// names, and its file records.
fn read_folder_block(
    data: &mut Cursor,
    archive_flags: ArchiveFlags,
    folder_record: &mut FolderRecord,
) -> (r: Result<(), ReadError>)
    requires
        old(data).position() <= old(data).bytes().len(),
        old(folder_record).file_records@.len() == 0,
        old(folder_record).name is None,
    ensures
        final(data).bytes() == old(data).bytes(),
        match r {
            Ok(_) => folder_block_at(
                old(data).bytes(),
                archive_flags,
                old(folder_record)@,
                old(data).position() as int,
            ) == Ok::<(FolderRecordView, int), ReadFailure>(
                (final(folder_record)@, final(data).position() as int),
            ) && final(data).position() <= old(data).bytes().len(),
            Err(e) => folder_block_at(
                old(data).bytes(),
                archive_flags,
                old(folder_record)@,
                old(data).position() as int,
            ) == Err::<(FolderRecordView, int), ReadFailure>(e@),
        },
{
    let ghost bytes = data.bytes();
    let flags = Some(archive_flags);
    if archive_flags.include_directory_names {
        let name = match deserialize_bstring(data, true) {
            Ok(name) => name,
            Err(e) => {
                return Err(e);
            },
        };
        let name = match check_hash(name, folder_record.name_hash) {
            Ok(name) => name,
            Err(e) => {
                return Err(e);
            },
        };
        folder_record.name = Some(name);
    }
    let ghost start = data.position() as int;
    let ghost named = folder_record@;
    let file_count = folder_record.file_count;
    let mut j: u32 = 0;
    while j < file_count
        invariant
            j <= file_count,
            file_count == named.file_count,
            data.bytes() == bytes,
            bytes == old(data).bytes(),
            flags == Some(archive_flags),
            data.position() == start + 16 * j <= bytes.len(),
            folder_name_at(bytes, archive_flags, old(folder_record)@, old(data).position() as int) == Ok::<
                (Option<Seq<char>>, int),
                ReadFailure,
            >((named.name, start)),
            named.name_hash == old(folder_record)@.name_hash,
            named.file_count == old(folder_record)@.file_count,
            named.offset == old(folder_record)@.offset,
            folder_record.file_records.len() == j,
            folder_record.name_hash == named.name_hash,
            name_view(folder_record.name) == named.name,
            folder_record.file_count == named.file_count,
            folder_record.offset == named.offset,
            forall|k: int|
                0 <= k < j ==> (#[trigger] folder_record.file_records[k])@ == file_record_at(
                    bytes,
                    start + 16 * k,
                    archive_flags.xbox360_archive,
                ),
        decreases file_count - j,
    {
        let name_hash = match read_u64(data, flags) {
            Ok(value) => value,
            Err(e) => {
                return Err(e);
            },
        };
        let size = match read_u32(data, flags) {
            Ok(value) => value,
            Err(e) => {
                return Err(e);
            },
        };
        let offset = match read_u32(data, flags) {
            Ok(value) => value,
            Err(e) => {
                return Err(e);
            },
        };
        folder_record.file_records.push(FileRecord { name_hash, size, offset, name: None });
        j += 1;
    }
    assert(folder_record@.file_records =~= Seq::new(
        file_count as nat,
        |k: int| file_record_at(bytes, start + 16 * k, archive_flags.xbox360_archive),
    ));
    Ok(())
}

/// A failure among the first blocks is the failure of all the blocks.
proof fn lemma_folder_blocks_error(
    data: Seq<u8>,
    archive_flags: ArchiveFlags,
    records: Seq<FolderRecordView>,
    failed: int,
    count: int,
    pos: int,
)
    requires
        failed <= count,
        folder_blocks(data, archive_flags, records, failed, pos) is Err,
    ensures
        folder_blocks(data, archive_flags, records, count, pos) == folder_blocks(
            data,
            archive_flags,
            records,
            failed,
            pos,
        ),
    decreases count - failed,
{
    if failed < count {
        lemma_folder_blocks_error(data, archive_flags, records, failed, count - 1, pos);
    }
}

/// Reads the blocks of all folders, one behind the other.
fn read_folder_blocks(
    data: &mut Cursor,
    archive_flags: ArchiveFlags,
    records: &mut Vec<FolderRecord>,
) -> (r: Result<(), ReadError>)
    requires
        old(data).position() <= old(data).bytes().len(),
        forall|k: int|
            0 <= k < old(records).len() ==> (#[trigger] old(records)[k]).file_records@.len() == 0
                && old(records)[k].name is None,
    ensures
        final(data).bytes() == old(data).bytes(),
        match r {
            Ok(_) => folder_blocks(
                old(data).bytes(),
                archive_flags,
                folder_record_views(old(records)@),
                old(records).len() as int,
                old(data).position() as int,
            ) == Ok::<(Seq<FolderRecordView>, int), ReadFailure>(
                (folder_record_views(final(records)@), final(data).position() as int),
            ) && final(data).position() <= old(data).bytes().len(),
            Err(e) => folder_blocks(
                old(data).bytes(),
                archive_flags,
                folder_record_views(old(records)@),
                old(records).len() as int,
                old(data).position() as int,
            ) == Err::<(Seq<FolderRecordView>, int), ReadFailure>(e@),
        },
{
    let ghost bytes = data.bytes();
    let ghost start = data.position() as int;
    let ghost initial = folder_record_views(records@);
    let count = records.len();
    let mut i: usize = 0;
    assert(folder_record_views(records@).take(0) =~= Seq::<FolderRecordView>::empty());
    while i < count
        invariant
            i <= count,
            count == records.len(),
            count == initial.len(),
            data.bytes() == bytes,
            bytes == old(data).bytes(),
            start == old(data).position() as int,
            initial == folder_record_views(old(records)@),
            data.position() <= bytes.len(),
            folder_blocks(bytes, archive_flags, initial, i as int, start) == Ok::<
                (Seq<FolderRecordView>, int),
                ReadFailure,
            >((folder_record_views(records@).take(i as int), data.position() as int)),
            forall|k: int|
                i <= k < count ==> (#[trigger] records[k])@ == initial[k]
                    && records[k].file_records@.len() == 0 && records[k].name is None,
        decreases count - i,
    {
        let ghost before = folder_record_views(records@);
        match read_folder_block(data, archive_flags, &mut records[i]) {
            Ok(_) => {},
            Err(e) => {
                proof {
                    lemma_folder_blocks_error(
                        bytes,
                        archive_flags,
                        initial,
                        i + 1,
                        count as int,
                        start,
                    );
                }
                return Err(e);
            },
        }
        proof {
            let after = folder_record_views(records@);
            assert(after.take(i + 1) =~= before.take(i as int).push(after[i as int]));
        }
        i += 1;
    }
    assert(folder_record_views(records@).take(count as int) =~= folder_record_views(records@));
    Ok(())
}

/// A failure among the first names is the failure of all the names.
proof fn lemma_named_files_error(
    data: Seq<u8>,
    records: Seq<FileRecordView>,
    failed: int,
    count: int,
    pos: int,
)
    requires
        failed <= count,
        named_files(data, records, failed, pos) is Err,
    ensures
        named_files(data, records, count, pos) == named_files(data, records, failed, pos),
    decreases count - failed,
{
    if failed < count {
        lemma_named_files_error(data, records, failed, count - 1, pos);
    }
}

/// A failure among the first folders' names is the failure of all of them.
proof fn lemma_named_folders_error(
    data: Seq<u8>,
    folders: Seq<FolderRecordView>,
    failed: int,
    count: int,
    pos: int,
)
    requires
        failed <= count,
        named_folders(data, folders, failed, pos) is Err,
    ensures
        named_folders(data, folders, count, pos) == named_folders(data, folders, failed, pos),
    decreases count - failed,
{
    if failed < count {
        lemma_named_folders_error(data, folders, failed, count - 1, pos);
    }
}

/// Reads the names of one folder's files from the block of file names.
fn read_folder_file_names(data: &mut Cursor, folder_record: &mut FolderRecord) -> (r: Result<
    (),
    ReadError,
>)
    ensures
        final(data).bytes() == old(data).bytes(),
        match r {
            Ok(_) => named_folder_at(
                old(data).bytes(),
                old(folder_record)@,
                old(data).position() as int,
            ) == Ok::<(FolderRecordView, int), ReadFailure>(
                (final(folder_record)@, final(data).position() as int),
            ),
            Err(e) => named_folder_at(
                old(data).bytes(),
                old(folder_record)@,
                old(data).position() as int,
            ) == Err::<(FolderRecordView, int), ReadFailure>(e@),
        },
{
    let ghost bytes = data.bytes();
    let ghost start = data.position() as int;
    let ghost initial = folder_record@.file_records;
    let count = folder_record.file_records.len();
    let mut j: usize = 0;
    assert(file_record_views(folder_record.file_records@).take(0) =~= Seq::<
        FileRecordView,
    >::empty());
    while j < count
        invariant
            j <= count,
            count == folder_record.file_records.len(),
            count == initial.len(),
            data.bytes() == bytes,
            bytes == old(data).bytes(),
            start == old(data).position(),
            initial == old(folder_record)@.file_records,
            folder_record.name_hash == old(folder_record).name_hash,
            folder_record.name == old(folder_record).name,
            folder_record.file_count == old(folder_record).file_count,
            folder_record.offset == old(folder_record).offset,
            named_files(bytes, initial, j as int, start) == Ok::<
                (Seq<FileRecordView>, int),
                ReadFailure,
            >(
                (
                    file_record_views(folder_record.file_records@).take(j as int),
                    data.position() as int,
                ),
            ),
            forall|k: int| j <= k < count ==> (#[trigger] folder_record.file_records[k])@ == initial[k],
        decreases count - j,
    {
        let ghost before = file_record_views(folder_record.file_records@);
        let file_name = match deserialize_null_terminated_string(data) {
            Ok(name) => name,
            Err(e) => {
                proof {
                    lemma_named_files_error(bytes, initial, j + 1, count as int, start);
                }
                return Err(e);
            },
        };
        let file_name = match check_hash(file_name, folder_record.file_records[j].name_hash) {
            Ok(name) => name,
            Err(e) => {
                proof {
                    lemma_named_files_error(bytes, initial, j + 1, count as int, start);
                }
                return Err(e);
            },
        };
        folder_record.file_records[j].name = Some(file_name);
        proof {
            let after = file_record_views(folder_record.file_records@);
            assert(after.take(j + 1) =~= before.take(j as int).push(after[j as int]));
        }
        j += 1;
    }
    assert(file_record_views(folder_record.file_records@).take(count as int)
        =~= file_record_views(folder_record.file_records@));
    Ok(())
}

/// Reads the block of file names: the names of all files, folder by folder.
fn read_file_names(data: &mut Cursor, records: &mut Vec<FolderRecord>) -> (r: Result<
    (),
    ReadError,
>)
    ensures
        final(data).bytes() == old(data).bytes(),
        match r {
            Ok(_) => named_folders(
                old(data).bytes(),
                folder_record_views(old(records)@),
                old(records).len() as int,
                old(data).position() as int,
            ) == Ok::<(Seq<FolderRecordView>, int), ReadFailure>(
                (folder_record_views(final(records)@), final(data).position() as int),
            ),
            Err(e) => named_folders(
                old(data).bytes(),
                folder_record_views(old(records)@),
                old(records).len() as int,
                old(data).position() as int,
            ) == Err::<(Seq<FolderRecordView>, int), ReadFailure>(e@),
        },
{
    let ghost bytes = data.bytes();
    let ghost start = data.position() as int;
    let ghost initial = folder_record_views(records@);
    let count = records.len();
    let mut i: usize = 0;
    assert(folder_record_views(records@).take(0) =~= Seq::<FolderRecordView>::empty());
    while i < count
        invariant
            i <= count,
            count == records.len(),
            count == initial.len(),
            data.bytes() == bytes,
            bytes == old(data).bytes(),
            start == old(data).position(),
            initial == folder_record_views(old(records)@),
            named_folders(bytes, initial, i as int, start) == Ok::<
                (Seq<FolderRecordView>, int),
                ReadFailure,
            >((folder_record_views(records@).take(i as int), data.position() as int)),
            forall|k: int| i <= k < count ==> (#[trigger] records[k])@ == initial[k],
        decreases count - i,
    {
        let ghost before = folder_record_views(records@);
        match read_folder_file_names(data, &mut records[i]) {
            Ok(_) => {},
            Err(e) => {
                proof {
                    lemma_named_folders_error(bytes, initial, i + 1, count as int, start);
                }
                return Err(e);
            },
        }
        proof {
            let after = folder_record_views(records@);
            assert(after.take(i + 1) =~= before.take(i as int).push(after[i as int]));
        }
        i += 1;
    }
    assert(folder_record_views(records@).take(count as int) =~= folder_record_views(records@));
    Ok(())
}

impl File {
    /// Finds the payload of the file whose region of `size` bytes starts at
    /// `offset`, behind the name and the uncompressed size that may open the
    /// region.
    fn deserialize(
        archive_flags: ArchiveFlags,
        compressed: bool,
        offset: u64,
        size: u64,
        data: &mut Cursor,
        version: Version,
    ) -> (r: Result<File, ReadError>)
        requires
            offset <= u32::MAX,
            size <= u32::MAX,
        ensures
            final(data).bytes() == old(data).bytes(),
            match r {
                Ok(file) => file_region(
                    old(data).bytes(),
                    archive_flags,
                    version,
                    compressed,
                    offset as int,
                    size as int,
                ) == Ok::<FileView, ReadFailure>(file@),
                Err(e) => file_region(
                    old(data).bytes(),
                    archive_flags,
                    version,
                    compressed,
                    offset as int,
                    size as int,
                ) == Err::<FileView, ReadFailure>(e@),
            },
    {
        let actual_pos = data.stream_position();
        if actual_pos != offset {
            data.seek(offset);
        }
        let name: Option<String> = None;
        let name_offset: u64 = if archive_flags.embed_file_names && version != Version::Oblivion {
            let length_byte = match read_u8(data) {
                Ok(byte) => byte,
                Err(e) => {
                    return Err(e);
                },
            };
            let behind_length = data.stream_position();
            data.seek(behind_length + length_byte as u64);
            length_byte as u64 + 1
        } else {
            0
        };
        let prefix: u64 = if compressed { name_offset + 4 } else { name_offset };
        if size < prefix {
            return Err(ReadError::ReaderError(StreamError::UnexpectedEof));
        }
        let data_size = size - prefix;
        let uncompressed_size = if compressed {
            match read_u32(data, Some(archive_flags)) {
                Ok(stated_size) => stated_size as u64,
                Err(e) => {
                    return Err(e);
                },
            }
        } else {
            data_size
        };
        let data_offset = data.stream_position();
        data.seek(data_offset + data_size);
        Ok(File { name, offset: data_offset, size: data_size, compressed, uncompressed_size, version })
    }
}

/// Finds the payloads of the files of one folder.
fn build_files(
    data: &mut Cursor,
    archive_flags: ArchiveFlags,
    version: Version,
    file_records: Vec<FileRecord>,
) -> (r: Result<Vec<File>, ReadError>)
    ensures
        final(data).bytes() == old(data).bytes(),
        match r {
            Ok(files) => files_of_records(
                old(data).bytes(),
                archive_flags,
                version,
                file_record_views(file_records@),
            ) == Ok::<Seq<FileView>, ReadFailure>(file_views(files@)),
            Err(e) => files_of_records(
                old(data).bytes(),
                archive_flags,
                version,
                file_record_views(file_records@),
            ) == Err::<Seq<FileView>, ReadFailure>(e@),
        },
{
    let ghost bytes = data.bytes();
    let ghost records = file_record_views(file_records@);
    let mut files: Vec<File> = Vec::new();
    for file_record in it: file_records
        invariant
            data.bytes() == bytes,
            bytes == old(data).bytes(),
            it.seq() == file_records@,
            records == file_record_views(file_records@),
            files.len() == it.index(),
            forall|k: int|
                0 <= k < it.index() ==> file_of_record(
                    bytes,
                    archive_flags,
                    version,
                    #[trigger] records[k],
                ) == Ok::<FileView, ReadFailure>(files[k]@),
    {
        let ghost at = it.index() as int;
        assert(file_record@ == records[at]);
        let override_compressed: bool = file_record.size & 0x4000_0000 != 0;
        let compressed = archive_flags.compressed_archive != override_compressed;
        let size = file_record.size & !0x4000_0000u32;
        let mut file = match File::deserialize(
            archive_flags,
            compressed,
            file_record.offset as u64,
            size as u64,
            data,
            version,
        ) {
            Ok(file) => file,
            Err(e) => {
                assert(file_of_record(bytes, archive_flags, version, records[at]) is Err);
                return Err(e);
            },
        };
        if file.name.is_none() && file_record.name.is_some() {
            file.name = file_record.name;
        }
        files.push(file);
    }
    assert(file_views(files@) =~= Seq::new(
        records.len(),
        |j: int| file_of_record(bytes, archive_flags, version, records[j])->Ok_0,
    ));
    Ok(files)
}

/// Finds the payloads of the files of all folders.
fn build_folders(
    data: &mut Cursor,
    archive_flags: ArchiveFlags,
    version: Version,
    folder_records: Vec<FolderRecord>,
) -> (r: Result<Vec<Folder>, ReadError>)
    ensures
        final(data).bytes() == old(data).bytes(),
        match r {
            Ok(folders) => folders_of_records(
                old(data).bytes(),
                archive_flags,
                version,
                folder_record_views(folder_records@),
            ) == Ok::<Seq<FolderView>, ReadFailure>(folder_views(folders@)),
            Err(e) => folders_of_records(
                old(data).bytes(),
                archive_flags,
                version,
                folder_record_views(folder_records@),
            ) == Err::<Seq<FolderView>, ReadFailure>(e@),
        },
{
    let ghost bytes = data.bytes();
    let ghost records = folder_record_views(folder_records@);
    let mut folders: Vec<Folder> = Vec::new();
    for folder_record in it: folder_records
        invariant
            data.bytes() == bytes,
            bytes == old(data).bytes(),
            it.seq() == folder_records@,
            records == folder_record_views(folder_records@),
            folders.len() == it.index(),
            forall|k: int|
                0 <= k < it.index() ==> folder_of_record(
                    bytes,
                    archive_flags,
                    version,
                    #[trigger] records[k],
                ) == Ok::<FolderView, ReadFailure>(folders[k]@),
    {
        let ghost at = it.index() as int;
        assert(folder_record@ == records[at]);
        let files = match build_files(data, archive_flags, version, folder_record.file_records) {
            Ok(files) => files,
            Err(e) => {
                assert(folder_of_record(bytes, archive_flags, version, records[at]) is Err);
                return Err(e);
            },
        };
        folders.push(Folder { name: folder_record.name, files });
    }
    assert(folder_views(folders@) =~= Seq::new(
        records.len(),
        |i: int| folder_of_record(bytes, archive_flags, version, records[i])->Ok_0,
    ));
    Ok(folders)
}

fn clone_name(name: &Option<String>) -> (r: Option<String>)
    ensures
        r == *name,
{
    match name {
        Some(text) => Some(text.clone()),
        None => None,
    }
}

impl Clone for File {
    fn clone(&self) -> (r: Self)
        ensures
            r@ == self@,
    {
        proof {
            use_type_invariant(self);
        }
        File {
            name: clone_name(&self.name),
            offset: self.offset,
            size: self.size,
            compressed: self.compressed,
            uncompressed_size: self.uncompressed_size,
            version: self.version,
        }
    }
}

impl Clone for Folder {
    fn clone(&self) -> (r: Self)
        ensures
            r@ == self@,
    {
        let mut files: Vec<File> = Vec::new();
        let mut i: usize = 0;
        while i < self.files.len()
            invariant
                i <= self.files.len(),
                files.len() == i,
                forall|k: int| 0 <= k < i ==> (#[trigger] files[k])@ == self.files[k]@,
            decreases self.files.len() - i,
        {
            files.push(self.files[i].clone());
            i += 1;
        }
        assert(file_views(files@) =~= file_views(self.files@));
        Folder { name: clone_name(&self.name), files }
    }
}

impl File {
    /// The file's name, if the archive holds file names.
    pub fn name(&self) -> (r: Option<&str>)
        ensures
            match r {
                Some(name) => self@.name == Some(name@),
                None => self@.name is None,
            },
    {
        if let Some(name) = &self.name {
            Some(name.as_str())
        } else {
            None
        }
    }

    /// Where the file's payload starts in the archive's bytes.
    pub fn offset(&self) -> (offset: u64)
        ensures
            offset == self@.offset,
    {
        self.offset
    }

    /// How many bytes the file's payload has.
    pub fn size(&self) -> (size: u64)
        ensures
            size == self@.size,
    {
        self.size
    }

    /// Whether the payload is compressed.
    pub fn is_compressed(&self) -> (compressed: bool)
        ensures
            compressed == self@.compressed,
    {
        self.compressed
    }

    /// The size that the archive states for the contents: for a compressed
    /// file the number before its payload, else the payload's size.
    pub fn uncompressed_size(&self) -> (size: u64)
        ensures
            size == self@.uncompressed_size,
            !self@.compressed ==> size == self@.size,
    {
        proof {
            use_type_invariant(self);
        }
        self.uncompressed_size
    }

    /// How the payload is stored.
    pub fn codec(&self) -> (codec: Codec)
        ensures
            codec == codec_of(self@),
    {
        if !self.compressed {
            Codec::Raw
        } else if self.version == Version::SkyrimSpecialEdition {
            Codec::Lz4
        } else {
            Codec::Zlib
        }
    }

    /// The file's payload as the archive stores it. It moves the archive's
    /// byte source behind the payload.
    pub fn payload(&self, bsa: &mut Bsa) -> (r: Result<Vec<u8>, ContentsError>)
        ensures
            final(bsa).header() == old(bsa).header(),
            final(bsa).bytes() == old(bsa).bytes(),
            match r {
                Ok(payload) => bytes_at(
                    old(bsa).bytes(),
                    self@.offset as int,
                    self@.size as int,
                ) == Some(payload@),
                Err(e) => bytes_at(old(bsa).bytes(), self@.offset as int, self@.size as int)
                    is None && e@ == ContentsFailure::ReaderError(StreamError::UnexpectedEof),
            },
    {
        bsa.reader.seek(self.offset);
        if self.size > bsa.reader.len() as u64 {
            return Err(ContentsError::ReaderError(StreamError::UnexpectedEof));
        }
        match bsa.reader.read_bytes(self.size as usize) {
            Ok(payload) => Ok(payload),
            Err(_) => Err(ContentsError::ReaderError(StreamError::UnexpectedEof)),
        }
    }

    /// The file's contents: its payload, decoded if the file is compressed.
    /// Of a file that is not compressed they have the size that the archive
    /// states.
    pub fn read_contents(self, bsa: &mut Bsa) -> (r: Result<Vec<u8>, ContentsError>)
        ensures
            final(bsa).header() == old(bsa).header(),
            final(bsa).bytes() == old(bsa).bytes(),
            match r {
                Ok(output) => contents(self@, old(bsa).bytes()) == Ok::<Seq<u8>, ContentsFailure>(
                    output@,
                ) && self@.offset + self@.size <= old(bsa).bytes().len() && (!self@.compressed
                    ==> output@.len() == self@.uncompressed_size),
                Err(e) => contents(self@, old(bsa).bytes()) == Err::<Seq<u8>, ContentsFailure>(
                    e@,
                ),
            },
    {
        proof {
            use_type_invariant(&self);
        }
        let payload = match self.payload(bsa) {
            Ok(payload) => payload,
            Err(e) => {
                return Err(e);
            },
        };
        decode(self.codec(), payload)
    }
}

impl Folder {
    /// The folder's files, in the order of the archive.
    pub fn files(&self) -> (r: &[File])
        ensures
            file_views(r@) == self@.files,
    {
        self.files.as_slice()
    }

    /// The folder's files, to be changed in place. Their number stays.
    pub fn files_mut(&mut self) -> (r: &mut [File])
        ensures
            file_views(r@) == old(self)@.files,
            final(self)@.name == old(self)@.name,
            final(self)@.files == file_views(final(r)@),
    {
        self.files.as_mut_slice()
    }

    /// The folder's name, if the archive holds directory names.
    pub fn name(&self) -> (r: Option<&str>)
        ensures
            match r {
                Some(name) => self@.name == Some(name@),
                None => self@.name is None,
            },
    {
        if let Some(name) = &self.name {
            Some(name.as_str())
        } else {
            None
        }
    }
}

impl Bsa {
    /// The header of the archive, with its folders and files.
    pub closed spec fn header(&self) -> HeaderView {
        self.header@
    }

    /// The bytes that the archive was read from.
    pub closed spec fn bytes(&self) -> Seq<u8> {
        self.reader.bytes()
    }

    /// The version of the archive.
    pub fn version(&self) -> (version: Version)
        ensures
            version == self.header().version,
    {
        self.header.version
    }

    /// The archive flags of the header.
    pub fn archive_flags(&self) -> (flags: ArchiveFlags)
        ensures
            flags == self.header().archive_flags,
    {
        self.header.archive_flags
    }

    /// The file flags of the header.
    pub fn file_flags(&self) -> (flags: FileFlags)
        ensures
            flags == self.header().file_flags,
    {
        self.header.file_flags
    }

    /// The number of folders that the header states.
    pub fn folder_count(&self) -> (count: u32)
        ensures
            count == self.header().folder_count,
    {
        self.header.folder_count
    }

    /// The number of files that the header states.
    pub fn file_count(&self) -> (count: u32)
        ensures
            count == self.header().file_count,
    {
        self.header.file_count
    }

    /// The length of all folder names together, as the header states it.
    pub fn total_folder_name_length(&self) -> (length: u32)
        ensures
            length == self.header().total_folder_name_length,
    {
        self.header.total_folder_name_length
    }

    /// The length of all file names together, as the header states it.
    pub fn total_file_name_length(&self) -> (length: u32)
        ensures
            length == self.header().total_file_name_length,
    {
        self.header.total_file_name_length
    }

    /// The folders of the archive, in the order of the archive.
    pub fn folders(&self) -> (r: Vec<Folder>)
        ensures
            folder_views(r@) == self.header().folders,
    {
        let mut folders: Vec<Folder> = Vec::new();
        let mut i: usize = 0;
        while i < self.header.folders.len()
            invariant
                i <= self.header.folders.len(),
                folders.len() == i,
                forall|k: int| 0 <= k < i ==> (#[trigger] folders[k])@ == self.header.folders[k]@,
            decreases self.header.folders.len() - i,
        {
            folders.push(self.header.folders[i].clone());
            i += 1;
        }
        assert(folder_views(folders@) =~= folder_views(self.header.folders@));
        folders
    }

    /// Appends the four bytes of `value`, high byte first if the flags are
    /// given and say so, low byte first otherwise.
    pub fn write_u32(v: &mut Vec<u8>, value: u32, archive_flags: Option<ArchiveFlags>)
        ensures
            final(v)@ == old(v)@ + spec_u32_bytes(value, is_big_endian(archive_flags)),
    {
        let b0 = (value % 0x100) as u8;
        let b1 = ((value / 0x100) % 0x100) as u8;
        let b2 = ((value / 0x1_0000) % 0x100) as u8;
        let b3 = (value / 0x100_0000) as u8;
        if archive_flags.is_some() && archive_flags.unwrap().xbox360_archive {
            v.push(b3);
            v.push(b2);
            v.push(b1);
            v.push(b0);
        } else {
            v.push(b0);
            v.push(b1);
            v.push(b2);
            v.push(b3);
        }
    }

    /// Reads the header, the records and the names, and finds every file's
    /// payload.
    fn read_header(data: &mut Cursor) -> (r: Result<BsaHeader, ReadError>)
        requires
            old(data).position() == 0,
        ensures
            final(data).bytes() == old(data).bytes(),
            match r {
                Ok(header) => archive(old(data).bytes()) == Ok::<HeaderView, ReadFailure>(header@),
                Err(e) => archive(old(data).bytes()) == Err::<HeaderView, ReadFailure>(e@),
            },
    {
        let mut res = match read_header_fields(data) {
            Ok(header) => header,
            Err(e) => {
                return Err(e);
            },
        };
        let ghost fields = res@;
        let mut folder_records = match read_folder_records(data, &res) {
            Ok(records) => records,
            Err(e) => {
                return Err(e);
            },
        };
        assert forall|k: int| 0 <= k < folder_records.len() implies (
        #[trigger] folder_records[k]).file_records@.len() == 0 && folder_records[k].name is None by {
            assert(folder_record_views(folder_records@)[k] == folder_records[k]@);
            assert(folder_records[k]@.file_records.len() == 0);
        }
        match read_folder_blocks(data, res.archive_flags, &mut folder_records) {
            Ok(_) => {},
            Err(e) => {
                return Err(e);
            },
        }
        if res.archive_flags.include_file_names {
            match read_file_names(data, &mut folder_records) {
                Ok(_) => {},
                Err(e) => {
                    return Err(e);
                },
            }
        }
        let folders = match build_folders(data, res.archive_flags, res.version, folder_records) {
            Ok(folders) => folders,
            Err(e) => {
                return Err(e);
            },
        };
        res.folders = folders;
        Ok(res)
    }
}

/// Reads an archive from its bytes.
pub fn read(data: Vec<u8>) -> (r: Result<Bsa, ReadError>)
    ensures
        match r {
            Ok(bsa) => archive(data@) == Ok::<HeaderView, ReadFailure>(bsa.header())
                && bsa.bytes() == data@,
            Err(e) => archive(data@) == Err::<HeaderView, ReadFailure>(e@),
        },
{
    let mut reader = Cursor::new(data);
    let header = match Bsa::read_header(&mut reader) {
        Ok(header) => header,
        Err(e) => {
            return Err(e);
        },
    };
    Ok(Bsa { header, reader })
}

} // verus!
