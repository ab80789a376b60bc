//! The failures that file operations report.
//!
//! Every failure names the operation that went wrong, the path or paths it
//! worked on, and the error of the operating system that caused it.  Two
//! failures are no operating-system errors at all and are kept apart, so
//! that a caller can tell them from the rest: a source without a file name,
//! and a file standing where a directory tree was to go.

use crate::path::FilePath;
use vstd::prelude::*;

verus! {

/// The error type of the operating system's input and output calls.  It is
/// carried through unread.
#[verifier::external_type_specification]
#[verifier::external_body]
pub struct ExIoError(std::io::Error);

/// A failed file operation.
#[derive(Debug)]
pub enum FileError {
    /// A file could not be opened.
    FileOpen(FilePath, std::io::Error),
    /// A file could not be created.
    FileCreate(FilePath, std::io::Error),
    /// A file could not be read.
    FileRead(FilePath, std::io::Error),
    /// A file could not be written.
    FileWrite(FilePath, std::io::Error),
    /// A file could not be removed.
    FileRemove(FilePath, std::io::Error),
    /// A file could not be copied.
    FileCopy { from: FilePath, to: FilePath, source: std::io::Error },
    /// A directory could not be read.
    DirRead(FilePath, std::io::Error),
    /// A directory could not be created.
    DirCreate(FilePath, std::io::Error),
    /// A directory could not be removed.
    DirRemove(FilePath, std::io::Error),
    /// A file or directory could not be renamed.
    Rename { from: FilePath, to: FilePath, source: std::io::Error },
    /// The path has no file name.
    NoFileName(FilePath),
    /// A file stands where none was expected.
    UnexpectedFile(FilePath),
    /// A temporary file could not be created.
    TempFileCreation(std::io::Error),
    /// A lock on the path could not be acquired.
    LockAcquisition(FilePath, std::io::Error),
    /// Writing to a writer failed.
    WriteError(std::io::Error),
}

/// What a [`FileError`] says, with each path as its components.
pub enum Failure {
    FileOpen(Seq<Seq<u8>>, std::io::Error),
    FileCreate(Seq<Seq<u8>>, std::io::Error),
    FileRead(Seq<Seq<u8>>, std::io::Error),
    FileWrite(Seq<Seq<u8>>, std::io::Error),
    FileRemove(Seq<Seq<u8>>, std::io::Error),
    FileCopy { from: Seq<Seq<u8>>, to: Seq<Seq<u8>>, source: std::io::Error },
    DirRead(Seq<Seq<u8>>, std::io::Error),
    DirCreate(Seq<Seq<u8>>, std::io::Error),
    DirRemove(Seq<Seq<u8>>, std::io::Error),
    Rename { from: Seq<Seq<u8>>, to: Seq<Seq<u8>>, source: std::io::Error },
    NoFileName(Seq<Seq<u8>>),
    UnexpectedFile(Seq<Seq<u8>>),
    TempFileCreation(std::io::Error),
    LockAcquisition(Seq<Seq<u8>>, std::io::Error),
    WriteError(std::io::Error),
}

impl View for FileError {
    type V = Failure;

    open spec fn view(&self) -> Failure {
        match *self {
            FileError::FileOpen(path, source) => Failure::FileOpen(path@, source),
            FileError::FileCreate(path, source) => Failure::FileCreate(path@, source),
            FileError::FileRead(path, source) => Failure::FileRead(path@, source),
            FileError::FileWrite(path, source) => Failure::FileWrite(path@, source),
            FileError::FileRemove(path, source) => Failure::FileRemove(path@, source),
            FileError::FileCopy { from, to, source } => Failure::FileCopy {
                from: from@,
                to: to@,
                source,
            },
            FileError::DirRead(path, source) => Failure::DirRead(path@, source),
            FileError::DirCreate(path, source) => Failure::DirCreate(path@, source),
            FileError::DirRemove(path, source) => Failure::DirRemove(path@, source),
            FileError::Rename { from, to, source } => Failure::Rename {
                from: from@,
                to: to@,
                source,
            },
            FileError::NoFileName(path) => Failure::NoFileName(path@),
            FileError::UnexpectedFile(path) => Failure::UnexpectedFile(path@),
            FileError::TempFileCreation(source) => Failure::TempFileCreation(source),
            FileError::LockAcquisition(path, source) => Failure::LockAcquisition(path@, source),
            FileError::WriteError(source) => Failure::WriteError(source),
        }
    }
}

} // verus!
