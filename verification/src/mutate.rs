//! Creating and deleting categories, sub-categories and notes.
//!
//! Each operation decides, from what was observed, which step on the tree is
//! to be carried out, or why none is.

use vstd::prelude::*;
use vstd::string::*;
use crate::codec::{
    category_path,
    category_path_text,
    decode,
    decoded,
    path_text,
    subcategory_path,
    subcategory_path_text,
    to_path,
};
use crate::error::{ErrorKind, ErrorText, StoreError, plain_failure};
use crate::plan::{ActionText, FsAction};
use crate::scan::{dated_notes, fault_in_root, notes_in_root, scan_root};
use crate::records::{NoteInfo, NoteText};
use crate::tree::DirState;

verus! {

/// What was found at the path of a directory that is to be removed.
#[derive(Clone, Copy, Debug, PartialEq, Eq, Structural)]
pub enum DirProbe {
    /// Nothing is there.
    Missing,
    /// Something is there, and it could not be listed.
    Unreadable,
    /// A directory without entries.
    Empty,
    /// A directory with at least one entry.
    Occupied,
}

/// Creates the category `name`: its id, which is its name, and the step that
/// makes its directory. The step creates the data root too where it is
/// missing, and leaves a category that is there already as it is.
pub fn create_category(data_dir: &str, name: &str) -> (res: (String, FsAction))
    ensures
        res.0@ == name@,
        res.1@ == (ActionText::CreateDirAll { path: category_path_text(data_dir@, name@) }),
{
    let step = FsAction::CreateDirAll { path: category_path(data_dir, name) };
    (String::from_str(name), step)
}

/// Creates the sub-category `name` of `category_id`: its id, which is its
/// name, and the step that makes its directory. The step creates the
/// category too where it is missing.
pub fn create_subcategory(data_dir: &str, category_id: &str, name: &str) -> (res: (
    String,
    FsAction,
))
    ensures
        res.0@ == name@,
        res.1@ == (ActionText::CreateDirAll {
            path: subcategory_path_text(data_dir@, category_id@, name@),
        }),
{
    let step = FsAction::CreateDirAll { path: subcategory_path(data_dir, category_id, name) };
    (String::from_str(name), step)
}

/// What becomes of the deletion of a category, by what was found at its
/// path: the step that removes an empty directory, or the failure.
pub open spec fn category_deletion(
    data_dir: Seq<char>,
    category_id: Seq<char>,
    probe: DirProbe,
) -> Result<ActionText, ErrorText> {
    match probe {
        DirProbe::Missing => Err(plain_failure(ErrorKind::NotFound, category_id)),
        DirProbe::Unreadable => Err(
            plain_failure(ErrorKind::ScanFailed, category_path_text(data_dir, category_id)),
        ),
        DirProbe::Occupied => Err(plain_failure(ErrorKind::NotEmpty, category_id)),
        DirProbe::Empty => Ok(
            ActionText::RemoveDir { path: category_path_text(data_dir, category_id) },
        ),
    }
}

/// What the outcome of an operation that asks for a step stands for.
pub open spec fn outcome_text(res: Result<FsAction, StoreError>) -> Result<ActionText, ErrorText> {
    match res {
        Ok(step) => Ok(step@),
        Err(e) => Err(e@),
    }
}

/// Deletes the category `category_id`, given what was found at its path.
///
/// Fails with `NotFound` where nothing is there, with `ScanFailed` where it
/// could not be listed and with `NotEmpty` where it has an entry. For an
/// empty category, the step that removes its directory is returned.
pub fn delete_category(data_dir: &str, category_id: &str, probe: DirProbe) -> (res: Result<
    FsAction,
    StoreError,
>)
    ensures
        outcome_text(res) == category_deletion(data_dir@, category_id@, probe),
{
    match probe {
        DirProbe::Missing => Err(StoreError::new(ErrorKind::NotFound, category_id)),
        DirProbe::Unreadable => {
            let path = category_path(data_dir, category_id);
            Err(StoreError::new(ErrorKind::ScanFailed, path.as_str()))
        },
        DirProbe::Occupied => Err(StoreError::new(ErrorKind::NotEmpty, category_id)),
        DirProbe::Empty => Ok(FsAction::RemoveDir { path: category_path(data_dir, category_id) }),
    }
}

/// Deletes the sub-category `sub_category_id` of `category_id`, given
/// whether anything is at its path.
///
/// Fails with `NotFound` where nothing is there. Else the step is returned
/// that removes the directory with all the notes in it.
pub fn delete_subcategory(
    data_dir: &str,
    category_id: &str,
    sub_category_id: &str,
    present: bool,
) -> (res: Result<FsAction, StoreError>)
    ensures
        present ==> res is Ok && res->Ok_0@ == (ActionText::RemoveDirAll {
            path: subcategory_path_text(data_dir@, category_id@, sub_category_id@),
        }),
        !present ==> res is Err && res->Err_0@ == plain_failure(
            ErrorKind::NotFound,
            sub_category_id@,
        ),
{
    if present {
        Ok(
            FsAction::RemoveDirAll {
                path: subcategory_path(data_dir, category_id, sub_category_id),
            },
        )
    } else {
        Err(StoreError::new(ErrorKind::NotFound, sub_category_id))
    }
}

/// The file of the note that `note_id` names.
///
/// Fails with `MalformedId` unless the id has exactly three fields.
pub fn note_path(data_dir: &str, note_id: &str) -> (res: Result<String, StoreError>)
    ensures
        match decoded(note_id@) {
            Some(key) => res is Ok && res->Ok_0@ == path_text(
                data_dir@,
                key.category,
                key.subcategory,
                key.title,
            ),
            None => res is Err && res->Err_0@ == plain_failure(ErrorKind::MalformedId, note_id@),
        },
{
    match decode(note_id) {
        Ok(key) => {
            let path = match &key.subcategory {
                Some(sub) => to_path(
                    data_dir,
                    key.category.as_str(),
                    Some(sub.as_str()),
                    key.title.as_str(),
                ),
                None => to_path(data_dir, key.category.as_str(), None, key.title.as_str()),
            };
            Ok(path)
        },
        Err(e) => Err(e),
    }
}

/// Deletes the note that `note_id` names, given whether anything is at the
/// path that `note_path` gives for it.
///
/// Fails with `MalformedId` unless the id has exactly three fields, and with
/// `NotFound` where nothing is at the path. Else the step that removes the
/// file is returned.
pub fn delete_note(data_dir: &str, note_id: &str, present: bool) -> (res: Result<
    FsAction,
    StoreError,
>)
    ensures
        match decoded(note_id@) {
            Some(key) => {
                let path = path_text(data_dir@, key.category, key.subcategory, key.title);
                if present {
                    res is Ok && res->Ok_0@ == (ActionText::RemoveFile { path })
                } else {
                    res is Err && res->Err_0@ == plain_failure(ErrorKind::NotFound, path)
                }
            },
            None => res is Err && res->Err_0@ == plain_failure(ErrorKind::MalformedId, note_id@),
        },
{
    match note_path(data_dir, note_id) {
        Ok(path) => {
            if present {
                Ok(FsAction::RemoveFile { path })
            } else {
                Err(StoreError::new(ErrorKind::NotFound, path.as_str()))
            }
        },
        Err(e) => Err(e),
    }
}

/// The position in `found` of the first note with the given title.
pub open spec fn first_titled(found: Seq<(i128, NoteText)>, title: Seq<char>) -> Option<int>
    decreases found.len(),
{
    if found.len() == 0 {
        None
    } else {
        match first_titled(found.drop_last(), title) {
            Some(i) => Some(i),
            None => if found.last().1.title == title {
                Some(found.len() - 1)
            } else {
                None
            },
        }
    }
}

/// A note of the given title among the first notes is the first of all.
pub proof fn lemma_first_titled_stays(found: Seq<(i128, NoteText)>, title: Seq<char>, k: int)
    requires
        0 <= k <= found.len(),
        first_titled(found.take(k), title) is Some,
    ensures
        first_titled(found, title) == first_titled(found.take(k), title),
    decreases found.len(),
{
    if k == found.len() {
        assert(found.take(k) =~= found);
    } else {
        assert(found.drop_last().take(k) =~= found.take(k));
        lemma_first_titled_stays(found.drop_last(), title, k);
    }
}

/// Deletes a note that is known by its title alone: the first note of that
/// title that a walk of the whole tree meets.
///
/// Fails with `ScanFailed` as the listing of the notes does, and with
/// `NotFound` where no note has the title. Else the step that removes the
/// file of that note is returned.
pub fn delete_note_by_title(data_dir: &str, title: &str, root: &DirState) -> (res: Result<
    FsAction,
    StoreError,
>)
    ensures
        match *root {
            DirState::Missing => res is Err && res->Err_0@ == plain_failure(
                ErrorKind::NotFound,
                title@,
            ),
            DirState::Unreadable => res is Err && res->Err_0@ == plain_failure(
                ErrorKind::ScanFailed,
                data_dir@,
            ),
            DirState::Listed(top) => match fault_in_root(data_dir@, top@) {
                Some(p) => res is Err && res->Err_0@ == plain_failure(ErrorKind::ScanFailed, p),
                None => match first_titled(notes_in_root(data_dir@, top@), title@) {
                    Some(i) => res is Ok && res->Ok_0@ == (ActionText::RemoveFile {
                        path: notes_in_root(data_dir@, top@)[i].1.path,
                    }),
                    None => res is Err && res->Err_0@ == plain_failure(
                        ErrorKind::NotFound,
                        title@,
                    ),
                },
            },
        },
{
    let top = match root {
        DirState::Missing => {
            return Err(StoreError::new(ErrorKind::NotFound, title));
        },
        DirState::Unreadable => {
            return Err(StoreError::new(ErrorKind::ScanFailed, data_dir));
        },
        DirState::Listed(top) => top,
    };
    let mut found: Vec<(i128, NoteInfo)> = Vec::new();
    assert(dated_notes(found@) + notes_in_root(data_dir@, top@) =~= notes_in_root(
        data_dir@,
        top@,
    ));
    match scan_root(data_dir, top, &mut found) {
        Ok(()) => {},
        Err(e) => {
            return Err(e);
        },
    }
    let wanted = String::from_str(title);
    let n = found.len();
    let mut i: usize = 0;
    while i < n
        invariant
            n == found.len(),
            i <= n,
            wanted@ == title@,
            *root == DirState::Listed(*top),
            fault_in_root(data_dir@, top@) is None,
            dated_notes(found@) == notes_in_root(data_dir@, top@),
            first_titled(dated_notes(found@).take(i as int), title@) is None,
        decreases n - i,
    {
        proof {
            let all = dated_notes(found@);
            assert(all.take(i + 1).drop_last() =~= all.take(i as int));
            assert(all.take(i + 1).last() == (found@[i as int].0, found@[i as int].1@));
        }
        if found[i].1.title == wanted {
            proof {
                let all = dated_notes(found@);
                assert(all.take(i + 1).last().1.title == title@);
                assert(first_titled(all.take(i + 1), title@) == Some(i as int));
                lemma_first_titled_stays(all, title@, i + 1);
                assert(all[i as int].1.path == found@[i as int].1.path@);
            }
            return Ok(FsAction::RemoveFile { path: found[i].1.path.clone() });
        }
        i += 1;
    }
    assert(dated_notes(found@).take(n as int) =~= dated_notes(found@));
    Err(StoreError::new(ErrorKind::NotFound, title))
}

} // verus!
