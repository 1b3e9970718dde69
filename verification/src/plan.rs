//! The steps on the tree that the store asks its caller to carry out.

use vstd::prelude::*;
use crate::error::{ErrorKind, ErrorText, StoreError};

verus! {

/// One step on the directory tree.
#[derive(Clone, Debug, PartialEq, Eq)]
pub enum FsAction {
    /// Create the directory and every missing directory above it; a
    /// directory that is there already is left as it is.
    CreateDirAll { path: String },
    /// Remove the directory, which must be empty.
    RemoveDir { path: String },
    /// Remove the directory and all that lies beneath it.
    RemoveDirAll { path: String },
    /// Remove the file.
    RemoveFile { path: String },
    /// Create the file, or empty it, and write `content` to it.
    WriteFile { path: String, content: String },
}

/// What an `FsAction` stands for.
pub enum ActionText {
    CreateDirAll { path: Seq<char> },
    RemoveDir { path: Seq<char> },
    RemoveDirAll { path: Seq<char> },
    RemoveFile { path: Seq<char> },
    WriteFile { path: Seq<char>, content: Seq<char> },
}

impl View for FsAction {
    type V = ActionText;

    open spec fn view(&self) -> ActionText {
        match *self {
            FsAction::CreateDirAll { path } => ActionText::CreateDirAll { path: path@ },
            FsAction::RemoveDir { path } => ActionText::RemoveDir { path: path@ },
            FsAction::RemoveDirAll { path } => ActionText::RemoveDirAll { path: path@ },
            FsAction::RemoveFile { path } => ActionText::RemoveFile { path: path@ },
            FsAction::WriteFile { path, content } => ActionText::WriteFile {
                path: path@,
                content: content@,
            },
        }
    }
}

impl ActionText {
    /// The path on which the step works.
    pub open spec fn target(self) -> Seq<char> {
        match self {
            ActionText::CreateDirAll { path } => path,
            ActionText::RemoveDir { path } => path,
            ActionText::RemoveDirAll { path } => path,
            ActionText::RemoveFile { path } => path,
            ActionText::WriteFile { path, content } => path,
        }
    }
}

/// What an optional step stands for.
pub open spec fn optional_action(step: Option<FsAction>) -> Option<ActionText> {
    match step {
        Some(a) => Some(a@),
        None => None,
    }
}

/// What a sequence of steps stands for.
pub open spec fn action_texts(steps: Seq<FsAction>) -> Seq<ActionText> {
    steps.map_values(|a: FsAction| a@)
}

impl FsAction {
    /// The path on which this step works.
    pub fn target(&self) -> (res: String)
        ensures
            res@ == self@.target(),
    {
        match self {
            FsAction::CreateDirAll { path } => path.clone(),
            FsAction::RemoveDir { path } => path.clone(),
            FsAction::RemoveDirAll { path } => path.clone(),
            FsAction::RemoveFile { path } => path.clone(),
            FsAction::WriteFile { path, content: _ } => path.clone(),
        }
    }

    /// The failure to report where the file system refused this step, with
    /// the reason it gave.
    pub fn failed(&self, reason: &str) -> (res: StoreError)
        ensures
            res@ == (ErrorText {
                kind: ErrorKind::WriteFailed,
                subject: self@.target(),
                detail: reason@,
            }),
    {
        let path = self.target();
        StoreError::with_detail(ErrorKind::WriteFailed, path.as_str(), reason)
    }
}

} // verus!
