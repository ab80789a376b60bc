//! The calls that a caller makes for the library, and how their failures
//! are named.
//!
//! The library never touches the disk.  It answers with actions, and the
//! caller carries them out in order.  When the operating system refuses one,
//! [`Action::failure`] says which failure that is: it names the operation
//! and carries the path or paths that the action worked on, together with
//! the operating system's error.

use crate::error::{Failure, FileError};
use crate::path::FilePath;
use vstd::prelude::*;

verus! {

/// One call that the caller is to make.
#[derive(Debug)]
pub enum Action {
    /// Open the file for reading.
    OpenFile(FilePath),
    /// Read the file just opened to its end.
    ReadFile(FilePath),
    /// Create the file, or empty it if it is there.
    CreateFile(FilePath),
    /// Write the data at hand to the file just created.
    WriteFile(FilePath),
    /// Remove the file.
    RemoveFile(FilePath),
    /// Copy the contents of `from` to `to`.
    CopyFile { from: FilePath, to: FilePath },
    /// List the directory.
    ReadDir(FilePath),
    /// Create the directory; the one above it has to be there.
    CreateDir(FilePath),
    /// Create the directory and every missing directory above it.
    CreateDirAll(FilePath),
    /// Remove the directory, which has to be empty.
    RemoveDir(FilePath),
    /// Remove the directory with all that it holds.
    RemoveDirAll(FilePath),
    /// Move `from` to `to`.
    Rename { from: FilePath, to: FilePath },
    /// Create a temporary file.
    CreateTempFile,
    /// Wait for the exclusive lock on the file.
    Lock(FilePath),
    /// Write the data at hand to the writer at hand.
    Write,
    /// Leave the entry at the path as it is.
    Skip(FilePath),
}

/// What an [`Action`] says, with each path as its components.
pub enum Step {
    OpenFile(Seq<Seq<u8>>),
    ReadFile(Seq<Seq<u8>>),
    CreateFile(Seq<Seq<u8>>),
    WriteFile(Seq<Seq<u8>>),
    RemoveFile(Seq<Seq<u8>>),
    CopyFile { from: Seq<Seq<u8>>, to: Seq<Seq<u8>> },
    ReadDir(Seq<Seq<u8>>),
    CreateDir(Seq<Seq<u8>>),
    CreateDirAll(Seq<Seq<u8>>),
    RemoveDir(Seq<Seq<u8>>),
    RemoveDirAll(Seq<Seq<u8>>),
    Rename { from: Seq<Seq<u8>>, to: Seq<Seq<u8>> },
    CreateTempFile,
    Lock(Seq<Seq<u8>>),
    Write,
    Skip(Seq<Seq<u8>>),
}

impl View for Action {
    type V = Step;

    open spec fn view(&self) -> Step {
        match *self {
            Action::OpenFile(path) => Step::OpenFile(path@),
            Action::ReadFile(path) => Step::ReadFile(path@),
            Action::CreateFile(path) => Step::CreateFile(path@),
            Action::WriteFile(path) => Step::WriteFile(path@),
            Action::RemoveFile(path) => Step::RemoveFile(path@),
            Action::CopyFile { from, to } => Step::CopyFile { from: from@, to: to@ },
            Action::ReadDir(path) => Step::ReadDir(path@),
            Action::CreateDir(path) => Step::CreateDir(path@),
            Action::CreateDirAll(path) => Step::CreateDirAll(path@),
            Action::RemoveDir(path) => Step::RemoveDir(path@),
            Action::RemoveDirAll(path) => Step::RemoveDirAll(path@),
            Action::Rename { from, to } => Step::Rename { from: from@, to: to@ },
            Action::CreateTempFile => Step::CreateTempFile,
            Action::Lock(path) => Step::Lock(path@),
            Action::Write => Step::Write,
            Action::Skip(path) => Step::Skip(path@),
        }
    }
}

/// The steps of a plan.
pub open spec fn steps(plan: Seq<Action>) -> Seq<Step> {
    Seq::new(plan.len(), |i: int| plan[i]@)
}

/// The view of a plan with one more action.
pub(crate) proof fn lemma_steps_push(plan: Seq<Action>, action: Action)
    ensures
        steps(plan.push(action)) == steps(plan).push(action@),
{
    assert(steps(plan.push(action)) =~= steps(plan).push(action@));
}

/// The failure that `step` ends in when the operating system answers
/// `source`; none for a step that makes no call.
pub open spec fn failure_of(step: Step, source: std::io::Error) -> Option<Failure> {
    match step {
        Step::OpenFile(path) => Some(Failure::FileOpen(path, source)),
        Step::ReadFile(path) => Some(Failure::FileRead(path, source)),
        Step::CreateFile(path) => Some(Failure::FileCreate(path, source)),
        Step::WriteFile(path) => Some(Failure::FileWrite(path, source)),
        Step::RemoveFile(path) => Some(Failure::FileRemove(path, source)),
        Step::CopyFile { from, to } => Some(Failure::FileCopy { from, to, source }),
        Step::ReadDir(path) => Some(Failure::DirRead(path, source)),
        Step::CreateDir(path) => Some(Failure::DirCreate(path, source)),
        Step::CreateDirAll(path) => Some(Failure::DirCreate(path, source)),
        Step::RemoveDir(path) => Some(Failure::DirRemove(path, source)),
        Step::RemoveDirAll(path) => Some(Failure::DirRemove(path, source)),
        Step::Rename { from, to } => Some(Failure::Rename { from, to, source }),
        Step::CreateTempFile => Some(Failure::TempFileCreation(source)),
        Step::Lock(path) => Some(Failure::LockAcquisition(path, source)),
        Step::Write => Some(Failure::WriteError(source)),
        Step::Skip(_) => None,
    }
}

/// The view of a failure that may be missing.
pub open spec fn failure_view(error: Option<FileError>) -> Option<Failure> {
    match error {
        Some(error) => Some(error@),
        None => None,
    }
}

impl Action {
    /// The failure to report when this action fails with `source`.  It
    /// carries the path or paths that the action worked on.
    pub fn failure(&self, source: std::io::Error) -> (error: Option<FileError>)
        ensures
            failure_view(error) == failure_of(self@, source),
    {
        match self {
            Action::OpenFile(path) => Some(FileError::FileOpen(path.clone(), source)),
            Action::ReadFile(path) => Some(FileError::FileRead(path.clone(), source)),
            Action::CreateFile(path) => Some(FileError::FileCreate(path.clone(), source)),
            Action::WriteFile(path) => Some(FileError::FileWrite(path.clone(), source)),
            Action::RemoveFile(path) => Some(FileError::FileRemove(path.clone(), source)),
            Action::CopyFile { from, to } => Some(
                FileError::FileCopy { from: from.clone(), to: to.clone(), source },
            ),
            Action::ReadDir(path) => Some(FileError::DirRead(path.clone(), source)),
            Action::CreateDir(path) => Some(FileError::DirCreate(path.clone(), source)),
            Action::CreateDirAll(path) => Some(FileError::DirCreate(path.clone(), source)),
            Action::RemoveDir(path) => Some(FileError::DirRemove(path.clone(), source)),
            Action::RemoveDirAll(path) => Some(FileError::DirRemove(path.clone(), source)),
            Action::Rename { from, to } => Some(
                FileError::Rename { from: from.clone(), to: to.clone(), source },
            ),
            Action::CreateTempFile => Some(FileError::TempFileCreation(source)),
            Action::Lock(path) => Some(FileError::LockAcquisition(path.clone(), source)),
            Action::Write => Some(FileError::WriteError(source)),
            Action::Skip(_) => None,
        }
    }
}

} // verus!
