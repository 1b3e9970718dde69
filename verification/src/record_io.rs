//! Reading and saving the content of one note.
//!
//! The content of a note is text that the store does not look into.

use vstd::prelude::*;
use vstd::string::*;
use crate::error::{ErrorKind, ErrorText, StoreError};
use crate::plan::{ActionText, FsAction, action_texts};
use crate::codec::optional_str_text;

verus! {

/// The steps that save `content` at `path`: the directory above the file is
/// created with all that is missing above it, where the path has one, then
/// the file is written.
pub open spec fn save_plan(path: Seq<char>, parent: Option<Seq<char>>, content: Seq<char>) -> Seq<
    ActionText,
> {
    match parent {
        Some(dir) => seq![
            ActionText::CreateDirAll { path: dir },
            ActionText::WriteFile { path, content },
        ],
        None => seq![ActionText::WriteFile { path, content }],
    }
}

/// `std::path::Path::parent`, on a path that is text: the path without its
/// final component. Its documentation says that an empty path has none, and
/// no more is claimed here.
#[verifier::external_body]
fn parent_dir(path: &str) -> (res: Option<String>)
    ensures
        path@.len() == 0 ==> res is None,
{
    match std::path::Path::new(path).parent() {
        Some(dir) => Some(dir.to_string_lossy().into_owned()),
        None => None,
    }
}

/// The result of reading the note at `path`, from what the file system
/// answered: the content as it is, or `ReadFailed` with the reason given.
pub fn read_note(path: &str, outcome: Result<String, String>) -> (res: Result<String, StoreError>)
    ensures
        match outcome {
            Ok(content) => res is Ok && res->Ok_0@ == content@,
            Err(reason) => res is Err && res->Err_0@ == (ErrorText {
                kind: ErrorKind::ReadFailed,
                subject: path@,
                detail: reason@,
            }),
        },
{
    match outcome {
        Ok(content) => Ok(content),
        Err(reason) => Err(StoreError::with_detail(ErrorKind::ReadFailed, path, reason.as_str())),
    }
}

/// The steps that save `content` at `path`, given the directory above it.
pub fn save_steps(path: &str, parent: Option<&str>, content: &str) -> (res: Vec<FsAction>)
    ensures
        action_texts(res@) == save_plan(path@, optional_str_text(parent), content@),
{
    let mut steps: Vec<FsAction> = Vec::new();
    match parent {
        Some(dir) => {
            steps.push(FsAction::CreateDirAll { path: String::from_str(dir) });
        },
        None => {},
    }
    steps.push(
        FsAction::WriteFile { path: String::from_str(path), content: String::from_str(content) },
    );
    assert(action_texts(steps@) =~= save_plan(path@, optional_str_text(parent), content@));
    steps
}

/// The steps that save `content` at `path`. The last of them writes the
/// file; the one before it, if there is one, creates the directory above it.
/// A step that the file system refuses ends the saving with the failure that
/// `FsAction::failed` gives for it.
pub fn save_note(path: &str, content: &str) -> (res: Vec<FsAction>)
    ensures
        exists|parent: Option<Seq<char>>|
            action_texts(res@) == #[trigger] save_plan(path@, parent, content@),
        path@.len() == 0 ==> action_texts(res@) == save_plan(path@, None, content@),
{
    let parent = parent_dir(path);
    match &parent {
        Some(dir) => save_steps(path, Some(dir.as_str()), content),
        None => save_steps(path, None, content),
    }
}

} // verus!
