//! Walks over an archive that was read: the paths of its files, the file of
//! a path, and a check of every file's contents.

use crate::bsa::{file_views, folder_views, Bsa, File};
use crate::codec::contents;
use crate::error::{ContentsError, ContentsFailure, StreamError};
use crate::format::{FileView, FolderView};
use crate::stream::bytes_at;
use vstd::prelude::*;
use vstd::string::StringExecFns;

verus! {

/// The path of a file in a folder: the folder's name, a `\\`, the file's
/// name.
pub open spec fn spec_full_path(folder: Seq<char>, file: Seq<char>) -> Seq<char> {
    folder.push('\\') + file
}

/// The path of a file in a folder.
pub fn full_path(folder: &str, file: &str) -> (path: String)
    ensures
        path@ == spec_full_path(folder@, file@),
{
    let mut path = String::from_str(folder);
    path.push('\\');
    path.append(file);
    path
}

/// The path of file `j` of folder `i`, if both have a name.
pub open spec fn path_at(folders: Seq<FolderView>, i: int, j: int) -> Option<Seq<char>> {
    match (folders[i].name, folders[i].files[j].name) {
        (Some(folder), Some(file)) => Some(spec_full_path(folder, file)),
        _ => None,
    }
}

/// The paths of the first `count` files of folder `i`, those without a path
/// left out.
pub open spec fn folder_paths(folders: Seq<FolderView>, i: int, count: int) -> Seq<Seq<char>>
    decreases count,
{
    if count <= 0 {
        Seq::empty()
    } else {
        match path_at(folders, i, count - 1) {
            Some(path) => folder_paths(folders, i, count - 1).push(path),
            None => folder_paths(folders, i, count - 1),
        }
    }
}

/// The paths of the files of the first `count` folders, in the order of the
/// archive.
pub open spec fn archive_paths(folders: Seq<FolderView>, count: int) -> Seq<Seq<char>>
    decreases count,
{
    if count <= 0 {
        Seq::empty()
    } else {
        archive_paths(folders, count - 1) + folder_paths(
            folders,
            count - 1,
            folders[count - 1].files.len() as int,
        )
    }
}

/// Texts as sequences of characters.
pub open spec fn text_views(texts: Seq<String>) -> Seq<Seq<char>> {
    Seq::new(texts.len(), |i: int| texts[i]@)
}

/// The paths of all files that have one, in the order of the archive.
pub fn ls(bsa: &Bsa) -> (paths: Vec<String>)
    ensures
        text_views(paths@) == archive_paths(
            bsa.header().folders,
            bsa.header().folders.len() as int,
        ),
{
    let folders = bsa.folders();
    let ghost views = folder_views(folders@);
    let mut paths: Vec<String> = Vec::new();
    let mut i: usize = 0;
    assert(text_views(paths@) =~= archive_paths(views, 0));
    while i < folders.len()
        invariant
            i <= folders.len(),
            views == folder_views(folders@),
            text_views(paths@) == archive_paths(views, i as int),
        decreases folders.len() - i,
    {
        let folder = &folders[i];
        let files = folder.files();
        let ghost before = text_views(paths@);
        let mut j: usize = 0;
        assert(views[i as int] == folder@);
        assert(before + folder_paths(views, i as int, 0) =~= before);
        while j < files.len()
            invariant
                j <= files.len(),
                i < folders.len(),
                views == folder_views(folders@),
                *folder == folders[i as int],
                file_views(files@) == views[i as int].files,
                text_views(paths@) == before + folder_paths(views, i as int, j as int),
            decreases files.len() - j,
        {
            let ghost listed = text_views(paths@);
            assert(file_views(files@)[j as int] == files[j as int]@);
            if let Some(folder_name) = folder.name() {
                if let Some(file_name) = files[j].name() {
                    paths.push(full_path(folder_name, file_name));
                    assert(text_views(paths@) =~= listed.push(
                        spec_full_path(folder_name@, file_name@),
                    ));
                }
            }
            j += 1;
            assert(text_views(paths@) =~= before + folder_paths(views, i as int, j as int));
        }
        i += 1;
    }
    paths
}

/// `path` with every `/` turned into `\\`.
pub open spec fn spec_normalize_path(path: Seq<char>) -> Seq<char> {
    Seq::new(path.len(), |i: int| if path[i] == '/' { '\\' } else { path[i] })
}

/// Turns every `/` of a path into `\\`.
pub fn normalize_path(path: &str) -> (normalized: String)
    ensures
        normalized@ == spec_normalize_path(path@),
{
    let mut normalized = String::new();
    for ch in it: path.chars()
        invariant
            it.seq() == path@,
            normalized@ == spec_normalize_path(path@.take(it.index() as int)),
    {
        normalized.push(if ch == '/' { '\\' } else { ch });
        assert(normalized@ =~= spec_normalize_path(path@.take(it.index() + 1)));
    }
    assert(path@.take(path@.len() as int) =~= path@);
    normalized
}

/// Whether file `j` of folder `i` comes before file `n` of folder `m` in
/// the order of the archive.
pub open spec fn comes_before(i: int, j: int, m: int, n: int) -> bool {
    i < m || (i == m && j < n)
}

/// Whether file `j` of folder `i` exists and has the path `path`.
pub open spec fn has_path(folders: Seq<FolderView>, i: int, j: int, path: Seq<char>) -> bool {
    &&& 0 <= i < folders.len()
    &&& 0 <= j < folders[i].files.len()
    &&& path_at(folders, i, j) == Some(path)
}

/// The first file of the archive whose path is `path`, with either
/// separator in `path`.
pub fn find(bsa: &Bsa, path: &str) -> (found: Option<File>)
    ensures
        match found {
            Some(file) => exists|i: int, j: int|
                {
                    &&& #[trigger] has_path(
                        bsa.header().folders,
                        i,
                        j,
                        spec_normalize_path(path@),
                    )
                    &&& file@ == bsa.header().folders[i].files[j]
                    &&& forall|m: int, n: int|
                        comes_before(m, n, i, j) ==> !#[trigger] has_path(
                            bsa.header().folders,
                            m,
                            n,
                            spec_normalize_path(path@),
                        )
                },
            None => forall|i: int, j: int|
                !#[trigger] has_path(bsa.header().folders, i, j, spec_normalize_path(path@)),
        },
{
    let wanted = normalize_path(path);
    let folders = bsa.folders();
    let ghost views = folder_views(folders@);
    let mut i: usize = 0;
    while i < folders.len()
        invariant
            i <= folders.len(),
            views == folder_views(folders@),
            views == bsa.header().folders,
            wanted@ == spec_normalize_path(path@),
            forall|m: int, n: int| m < i ==> !#[trigger] has_path(views, m, n, wanted@),
        decreases folders.len() - i,
    {
        let folder = &folders[i];
        let files = folder.files();
        assert(views[i as int] == folder@);
        let mut j: usize = 0;
        while j < files.len()
            invariant
                j <= files.len(),
                i < folders.len(),
                views == folder_views(folders@),
                views == bsa.header().folders,
            wanted@ == spec_normalize_path(path@),
                *folder == folders[i as int],
                file_views(files@) == views[i as int].files,
                forall|m: int, n: int|
                    comes_before(m, n, i as int, j as int) ==> !#[trigger] has_path(
                        views,
                        m,
                        n,
                        wanted@,
                    ),
            decreases files.len() - j,
        {
            assert(file_views(files@)[j as int] == files[j as int]@);
            if let Some(folder_name) = folder.name() {
                if let Some(file_name) = files[j].name() {
                    let combined_name = full_path(folder_name, file_name);
                    if wanted == combined_name {
                        assert(has_path(views, i as int, j as int, wanted@));
                        let file = files[j].clone();
                        assert(file@ == views[i as int].files[j as int]);
                        return Some(file);
                    }
                }
            }
            assert(!has_path(views, i as int, j as int, wanted@));
            j += 1;
        }
        i += 1;
    }
    None
}

/// What a check of level `fast` finds of a file of an archive with the
/// bytes `data`: at level 0 whether the file has contents, at level 2 and
/// above nothing, and at every other level whether `data` holds the file's
/// payload.
pub open spec fn checked(file: FileView, data: Seq<u8>, fast: int) -> Result<(), ContentsFailure> {
    if fast >= 2 {
        Ok(())
    } else if fast == 0 {
        match contents(file, data) {
            Ok(_) => Ok(()),
            Err(e) => Err(e),
        }
    } else {
        match bytes_at(data, file.offset as int, file.size as int) {
            Some(_) => Ok(()),
            None => Err(ContentsFailure::ReaderError(StreamError::UnexpectedEof)),
        }
    }
}

/// What the check finds of file `j` of folder `i`, if there is such a file.
pub open spec fn checked_at(folders: Seq<FolderView>, data: Seq<u8>, fast: int, i: int, j: int)
    -> Option<Result<(), ContentsFailure>> {
    if 0 <= i < folders.len() && 0 <= j < folders[i].files.len() {
        Some(checked(folders[i].files[j], data, fast))
    } else {
        None
    }
}

/// Checks every file of the archive, in the order of the archive, and
/// stops at the first that fails.
pub fn validate(bsa: &mut Bsa, fast: i32) -> (r: Result<(), ContentsError>)
    ensures
        final(bsa).header() == old(bsa).header(),
        final(bsa).bytes() == old(bsa).bytes(),
        match r {
            Ok(_) => forall|i: int, j: int|
                !(#[trigger] checked_at(
                    old(bsa).header().folders,
                    old(bsa).bytes(),
                    fast as int,
                    i,
                    j,
                ) matches Some(Err(_))),
            Err(e) => exists|i: int, j: int|
                {
                    &&& #[trigger] checked_at(
                        old(bsa).header().folders,
                        old(bsa).bytes(),
                        fast as int,
                        i,
                        j,
                    ) == Some(Err::<(), ContentsFailure>(e@))
                    &&& forall|m: int, n: int|
                        comes_before(m, n, i, j) ==> !(#[trigger] checked_at(
                            old(bsa).header().folders,
                            old(bsa).bytes(),
                            fast as int,
                            m,
                            n,
                        ) matches Some(Err(_)))
                },
        },
{
    let folders = bsa.folders();
    let ghost views = folder_views(folders@);
    let ghost data = bsa.bytes();
    let mut i: usize = 0;
    while i < folders.len()
        invariant
            i <= folders.len(),
            views == folder_views(folders@),
            views == old(bsa).header().folders,
            bsa.header() == old(bsa).header(),
            bsa.bytes() == old(bsa).bytes(),
            data == old(bsa).bytes(),
            forall|m: int, n: int|
                m < i ==> !(#[trigger] checked_at(views, data, fast as int, m, n) matches Some(
                    Err(_),
                )),
        decreases folders.len() - i,
    {
        let folder = &folders[i];
        let files = folder.files();
        assert(views[i as int] == folder@);
        let mut j: usize = 0;
        while j < files.len()
            invariant
                j <= files.len(),
                i < folders.len(),
                views == folder_views(folders@),
                views == old(bsa).header().folders,
                bsa.header() == old(bsa).header(),
                bsa.bytes() == old(bsa).bytes(),
                data == old(bsa).bytes(),
                *folder == folders[i as int],
                file_views(files@) == views[i as int].files,
                forall|m: int, n: int|
                    comes_before(m, n, i as int, j as int) ==> !(#[trigger] checked_at(
                        views,
                        data,
                        fast as int,
                        m,
                        n,
                    ) matches Some(Err(_))),
            decreases files.len() - j,
        {
            assert(file_views(files@)[j as int] == files[j as int]@);
            let ghost file = files[j as int]@;
            assert(checked_at(views, data, fast as int, i as int, j as int) == Some(
                checked(file, data, fast as int),
            ));
            if fast < 2 {
                if fast == 0 {
                    match files[j].clone().read_contents(bsa) {
                        Ok(_) => {},
                        Err(e) => {
                            return Err(e);
                        },
                    }
                } else {
                    match files[j].payload(bsa) {
                        Ok(_) => {},
                        Err(e) => {
                            return Err(e);
                        },
                    }
                }
            }
            j += 1;
        }
        i += 1;
    }
    Ok(())
}

/// The parts of a folder's name between its `\`: a name without one is
/// its own single part, and a `\` at either end has an empty part beside
/// it.
pub open spec fn spec_parts(name: Seq<char>) -> Seq<Seq<char>>
    decreases name.len(),
{
    if name.len() == 0 {
        seq![Seq::empty()]
    } else {
        let before = spec_parts(name.drop_last());
        if name.last() == '\\' {
            before.push(Seq::empty())
        } else {
            before.drop_last().push(before.last().push(name.last()))
        }
    }
}

/// Splits a folder's name at every `\`.
pub fn parts(name: &str) -> (parts: Vec<String>)
    ensures
        text_views(parts@) == spec_parts(name@),
{
    let mut done: Vec<String> = Vec::new();
    let mut part = String::new();
    assert(text_views(done@).push(part@) =~= spec_parts(name@.take(0)));
    for ch in it: name.chars()
        invariant
            it.seq() == name@,
            text_views(done@).push(part@) == spec_parts(name@.take(it.index() as int)),
    {
        let ghost at = it.index() as int;
        let ghost before = spec_parts(name@.take(at));
        assert(name@.take(at + 1).drop_last() =~= name@.take(at));
        assert(before.drop_last() =~= text_views(done@));
        if ch == '\\' {
            done.push(part);
            part = String::new();
            assert(text_views(done@) =~= before);
        } else {
            part.push(ch);
        }
    }
    assert(name@.take(name@.len() as int) =~= name@);
    let ghost all = text_views(done@).push(part@);
    done.push(part);
    assert(text_views(done@) =~= all);
    done
}

} // verus!
