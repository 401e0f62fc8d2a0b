//! What holds of every archive that reads.

use crate::codec::contents;
use crate::error::ReadFailure;
use crate::flags::ArchiveFlags;
use crate::format::{
    archive, archive_records, file_of_record, folder_blocks, folder_of_record, folder_record_start,
    folder_records, header_at_start, named_files, named_folders, override_bit, FileRecordView,
    FileView, FolderRecordView,
};
use crate::hash::spec_name_hash;
use vstd::prelude::*;

verus! {

/// A name that is held hashes to the hash beside it.
pub open spec fn name_matches(name: Option<Seq<char>>, name_hash: u64) -> bool {
    name matches Some(text) ==> spec_name_hash(text) == name_hash
}

/// A folder record after its block was read: it kept its hash, its count
/// and its offset, it has a name if and only if the archive holds directory
/// names, and as many file records as it counts, none of them named yet.
spec fn is_block_of(
    block: FolderRecordView,
    record: FolderRecordView,
    archive_flags: ArchiveFlags,
) -> bool {
    &&& block.name_hash == record.name_hash
    &&& block.file_count == record.file_count
    &&& block.offset == record.offset
    &&& block.name is Some <==> archive_flags.include_directory_names
    &&& name_matches(block.name, block.name_hash)
    &&& block.file_records.len() == record.file_count
    &&& forall|j: int| 0 <= j < block.file_records.len() ==> (#[trigger] block.file_records[j]).name is None
}

proof fn lemma_folder_blocks(
    data: Seq<u8>,
    archive_flags: ArchiveFlags,
    records: Seq<FolderRecordView>,
    count: int,
    pos: int,
)
    requires
        0 <= count <= records.len(),
        folder_blocks(data, archive_flags, records, count, pos) is Ok,
    ensures
        ({
            let blocks = folder_blocks(data, archive_flags, records, count, pos)->Ok_0.0;
            &&& blocks.len() == count
            &&& forall|i: int|
                0 <= i < count ==> is_block_of(#[trigger] blocks[i], records[i], archive_flags)
        }),
    decreases count,
{
    if count > 0 {
        lemma_folder_blocks(data, archive_flags, records, count - 1, pos);
    }
}

/// A file record after its name was read: it kept its hash, its size and
/// its offset, and has a name that hashes to its hash.
spec fn is_named(named: FileRecordView, record: FileRecordView) -> bool {
    &&& named.name_hash == record.name_hash
    &&& named.size == record.size
    &&& named.offset == record.offset
    &&& named.name is Some
    &&& name_matches(named.name, named.name_hash)
}

proof fn lemma_named_files(data: Seq<u8>, records: Seq<FileRecordView>, count: int, pos: int)
    requires
        0 <= count <= records.len(),
        named_files(data, records, count, pos) is Ok,
    ensures
        ({
            let named = named_files(data, records, count, pos)->Ok_0.0;
            &&& named.len() == count
            &&& forall|j: int| 0 <= j < count ==> is_named(#[trigger] named[j], records[j])
        }),
    decreases count,
{
    if count > 0 {
        lemma_named_files(data, records, count - 1, pos);
    }
}

/// A folder record after the names of its files were read: it kept what it
/// had, and each of its file records got its name.
spec fn is_named_folder(named: FolderRecordView, folder: FolderRecordView) -> bool {
    &&& named.name_hash == folder.name_hash
    &&& named.name == folder.name
    &&& named.file_count == folder.file_count
    &&& named.offset == folder.offset
    &&& named.file_records.len() == folder.file_records.len()
    &&& forall|j: int|
        0 <= j < named.file_records.len() ==> is_named(
            #[trigger] named.file_records[j],
            folder.file_records[j],
        )
}

proof fn lemma_named_folders(data: Seq<u8>, folders: Seq<FolderRecordView>, count: int, pos: int)
    requires
        0 <= count <= folders.len(),
        named_folders(data, folders, count, pos) is Ok,
    ensures
        ({
            let named = named_folders(data, folders, count, pos)->Ok_0.0;
            &&& named.len() == count
            &&& forall|i: int| 0 <= i < count ==> is_named_folder(#[trigger] named[i], folders[i])
        }),
    decreases count,
{
    if count > 0 {
        lemma_named_folders(data, folders, count - 1, pos);
        let (done, at) = named_folders(data, folders, count - 1, pos)->Ok_0;
        let folder = folders[count - 1];
        lemma_named_files(data, folder.file_records, folder.file_records.len() as int, at);
    }
}

/// The records of an archive that reads are as many as the header counts
/// folders, and each has as many file records as it counts files. Every
/// folder has a name if and only if the archive holds directory names, every
/// file if and only if it holds file names, and every name that is held
/// hashes to the hash that its record stores.
pub proof fn lemma_names_match_hashes(data: Seq<u8>)
    requires
        archive_records(data) is Ok,
    ensures
        ({
            let header = header_at_start(data)->Ok_0;
            let records = archive_records(data)->Ok_0;
            &&& header_at_start(data) is Ok
            &&& records.len() == header.folder_count
            &&& forall|i: int|
                0 <= i < records.len() ==> {
                    let folder = #[trigger] records[i];
                    &&& folder.name is Some <==> header.archive_flags.include_directory_names
                    &&& name_matches(folder.name, folder.name_hash)
                    &&& folder.file_records.len() == folder.file_count
                }
            &&& forall|i: int, j: int|
                0 <= i < records.len() && 0 <= j < records[i].file_records.len() ==> {
                    let file = #[trigger] records[i].file_records[j];
                    &&& file.name is Some <==> header.archive_flags.include_file_names
                    &&& name_matches(file.name, file.name_hash)
                }
        }),
{
    let header = header_at_start(data)->Ok_0;
    let flags = header.archive_flags;
    let first = folder_records(data, header)->Ok_0;
    let start = folder_record_start(header.version, header.folder_count as int);
    lemma_folder_blocks(data, flags, first, first.len() as int, start);
    let (blocks, names_start) = folder_blocks(data, flags, first, first.len() as int, start)->Ok_0;
    let records = archive_records(data)->Ok_0;
    if flags.include_file_names {
        lemma_named_folders(data, blocks, blocks.len() as int, names_start);
        assert forall|i: int| 0 <= i < records.len() implies {
            let folder = #[trigger] records[i];
            &&& folder.name is Some <==> flags.include_directory_names
            &&& name_matches(folder.name, folder.name_hash)
            &&& folder.file_records.len() == folder.file_count
        } by {
            assert(is_named_folder(records[i], blocks[i]));
            assert(is_block_of(blocks[i], first[i], flags));
        }
        assert forall|i: int, j: int|
            0 <= i < records.len() && 0 <= j < records[i].file_records.len() implies {
            let file = #[trigger] records[i].file_records[j];
            &&& file.name is Some <==> flags.include_file_names
            &&& name_matches(file.name, file.name_hash)
        } by {
            assert(is_named_folder(records[i], blocks[i]));
            assert(is_named(records[i].file_records[j], blocks[i].file_records[j]));
        }
    } else {
        assert forall|i: int| 0 <= i < records.len() implies {
            let folder = #[trigger] records[i];
            &&& folder.name is Some <==> flags.include_directory_names
            &&& name_matches(folder.name, folder.name_hash)
            &&& folder.file_records.len() == folder.file_count
        } by {
            assert(is_block_of(blocks[i], first[i], flags));
        }
        assert forall|i: int, j: int|
            0 <= i < records.len() && 0 <= j < records[i].file_records.len() implies {
            let file = #[trigger] records[i].file_records[j];
            &&& file.name is Some <==> flags.include_file_names
            &&& name_matches(file.name, file.name_hash)
        } by {
            assert(is_block_of(blocks[i], first[i], flags));
            assert(blocks[i].file_records[j].name is None);
        }
    }
}

/// In an archive that reads, the folders and files stand in the order of
/// their records: there are as many folders as the header counts, folder
/// `i` is the folder of record `i` and has its name, and its file `j` is the
/// file of that record's file record `j` and has its name.
pub proof fn lemma_declaration_order(data: Seq<u8>)
    requires
        archive(data) is Ok,
    ensures
        ({
            let header = archive(data)->Ok_0;
            let records = archive_records(data)->Ok_0;
            &&& archive_records(data) is Ok
            &&& header.folders.len() == header.folder_count
            &&& header.folders.len() == records.len()
            &&& forall|i: int|
                0 <= i < records.len() ==> {
                    let folder = #[trigger] header.folders[i];
                    &&& folder.name == records[i].name
                    &&& folder.files.len() == records[i].file_records.len()
                    &&& folder.files.len() == records[i].file_count
                }
            &&& forall|i: int, j: int|
                0 <= i < records.len() && 0 <= j < records[i].file_records.len() ==> {
                    let file = #[trigger] header.folders[i].files[j];
                    &&& file_of_record(
                        data,
                        header.archive_flags,
                        header.version,
                        records[i].file_records[j],
                    ) == Ok::<FileView, ReadFailure>(file)
                    &&& file.name == records[i].file_records[j].name
                }
        }),
{
    lemma_names_match_hashes(data);
    let header = archive(data)->Ok_0;
    let records = archive_records(data)->Ok_0;
    let flags = header.archive_flags;
    let version = header.version;
    assert forall|i: int| 0 <= i < records.len() implies {
        let folder = #[trigger] header.folders[i];
        &&& folder.name == records[i].name
        &&& folder.files.len() == records[i].file_records.len()
        &&& folder.files.len() == records[i].file_count
    } by {
        assert(folder_of_record(data, flags, version, records[i]) is Ok);
    }
    assert forall|i: int, j: int|
        0 <= i < records.len() && 0 <= j < records[i].file_records.len() implies {
        let file = #[trigger] header.folders[i].files[j];
        &&& file_of_record(data, flags, version, records[i].file_records[j]) == Ok::<
            FileView,
            ReadFailure,
        >(file)
        &&& file.name == records[i].file_records[j].name
    } by {
        assert(folder_of_record(data, flags, version, records[i]) is Ok);
        let files = records[i].file_records;
        assert(file_of_record(data, flags, version, files[j]) is Ok);
    }
}

/// In an archive that reads, every name that a folder or a file has hashes
/// to the hash that its record stores. A folder has a name if and only if
/// the archive holds directory names, a file if and only if it holds file
/// names.
pub proof fn lemma_folder_and_file_names(data: Seq<u8>)
    requires
        archive(data) is Ok,
    ensures
        ({
            let header = archive(data)->Ok_0;
            let records = archive_records(data)->Ok_0;
            &&& archive_records(data) is Ok
            &&& header.folders.len() == records.len()
            &&& forall|i: int|
                0 <= i < header.folders.len() ==> {
                    let folder = #[trigger] header.folders[i];
                    &&& folder.name is Some <==> header.archive_flags.include_directory_names
                    &&& name_matches(folder.name, records[i].name_hash)
                    &&& folder.files.len() == records[i].file_records.len()
                }
            &&& forall|i: int, j: int|
                0 <= i < header.folders.len() && 0 <= j < header.folders[i].files.len() ==> {
                    let file = #[trigger] header.folders[i].files[j];
                    &&& file.name is Some <==> header.archive_flags.include_file_names
                    &&& name_matches(file.name, records[i].file_records[j].name_hash)
                }
        }),
{
    lemma_names_match_hashes(data);
    lemma_declaration_order(data);
    let header = archive(data)->Ok_0;
    let records = archive_records(data)->Ok_0;
    assert forall|i: int| 0 <= i < header.folders.len() implies {
        let folder = #[trigger] header.folders[i];
        &&& folder.name is Some <==> header.archive_flags.include_directory_names
        &&& name_matches(folder.name, records[i].name_hash)
        &&& folder.files.len() == records[i].file_records.len()
    } by {
        let record = records[i];
    }
    assert forall|i: int, j: int|
        0 <= i < header.folders.len() && 0 <= j < header.folders[i].files.len() implies {
        let file = #[trigger] header.folders[i].files[j];
        &&& file.name is Some <==> header.archive_flags.include_file_names
        &&& name_matches(file.name, records[i].file_records[j].name_hash)
    } by {
        let folder = header.folders[i];
        let record = records[i].file_records[j];
    }
}

/// In an archive that reads, a file is compressed if and only if the
/// archive's flag and the override bit of the file's size word differ.
pub proof fn lemma_compression_of_files(data: Seq<u8>)
    requires
        archive(data) is Ok,
    ensures
        ({
            let header = archive(data)->Ok_0;
            let records = archive_records(data)->Ok_0;
            &&& archive_records(data) is Ok
            &&& header.folders.len() == records.len()
            &&& forall|i: int, j: int|
                0 <= i < header.folders.len() && 0 <= j < header.folders[i].files.len() ==> {
                    let file = #[trigger] header.folders[i].files[j];
                    &&& j < records[i].file_records.len()
                    &&& file.compressed == (header.archive_flags.compressed_archive != (
                    records[i].file_records[j].size & override_bit() != 0))
                    &&& file.version == header.version
                }
        }),
{
    lemma_declaration_order(data);
    let header = archive(data)->Ok_0;
    let records = archive_records(data)->Ok_0;
    assert forall|i: int, j: int|
        0 <= i < header.folders.len() && 0 <= j < header.folders[i].files.len() implies {
        let file = #[trigger] header.folders[i].files[j];
        &&& j < records[i].file_records.len()
        &&& file.compressed == (header.archive_flags.compressed_archive != (
        records[i].file_records[j].size & override_bit() != 0))
        &&& file.version == header.version
    } by {
        let folder = header.folders[i];
        let record = records[i].file_records[j];
    }
}

/// In an archive that reads, the payload of a file lies in the file's
/// region, behind what opens it, and ends where the region ends; a file
/// that is not compressed has the size of its payload.
pub proof fn lemma_payload_in_region(data: Seq<u8>)
    requires
        archive(data) is Ok,
    ensures
        ({
            let header = archive(data)->Ok_0;
            let records = archive_records(data)->Ok_0;
            &&& archive_records(data) is Ok
            &&& header.folders.len() == records.len()
            &&& forall|i: int, j: int|
                0 <= i < header.folders.len() && 0 <= j < header.folders[i].files.len() ==> {
                    let file = #[trigger] header.folders[i].files[j];
                    let record = records[i].file_records[j];
                    &&& j < records[i].file_records.len()
                    &&& record.offset <= file.offset
                    &&& file.offset + file.size == record.offset + (record.size
                        & !override_bit())
                    &&& !file.compressed ==> file.uncompressed_size == file.size
                }
        }),
{
    lemma_declaration_order(data);
    let header = archive(data)->Ok_0;
    let records = archive_records(data)->Ok_0;
    assert forall|i: int, j: int|
        0 <= i < header.folders.len() && 0 <= j < header.folders[i].files.len() implies {
        let file = #[trigger] header.folders[i].files[j];
        let record = records[i].file_records[j];
        &&& j < records[i].file_records.len()
        &&& record.offset <= file.offset
        &&& file.offset + file.size == record.offset + (record.size & !override_bit())
        &&& !file.compressed ==> file.uncompressed_size == file.size
    } by {
        let folder = header.folders[i];
        let record = records[i].file_records[j];
        let region = (record.size & !override_bit()) as int;
        assert(file_of_record(data, header.archive_flags, header.version, record) is Ok);
    }
}

/// A file has contents only if the data holds its whole payload; and the
/// contents of a file that is not compressed are that payload, so they have
/// the payload's size.
pub proof fn lemma_contents_within_data(file: FileView, data: Seq<u8>)
    requires
        contents(file, data) is Ok,
    ensures
        0 <= file.offset,
        file.offset + file.size <= data.len(),
        !file.compressed ==> contents(file, data)->Ok_0 == data.subrange(
            file.offset as int,
            file.offset + file.size,
        ) && contents(file, data)->Ok_0.len() == file.size,
{
}

} // verus!
