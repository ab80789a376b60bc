use std::io::{Error, ErrorKind};
use tmc_langs_util::action::Action;
use tmc_langs_util::error::FileError;
use tmc_langs_util::file_util::{
    create_file, read_file, read_file_to_string_lossy, write_to_file, write_to_writer, ReadAttempt,
};
use tmc_langs_util::path::FilePath;

fn text(path: &FilePath) -> String {
    String::from_utf8(path.to_bytes()).unwrap()
}

fn show(plan: &[Action]) -> Vec<String> {
    plan.iter()
        .map(|action| match action {
            Action::CreateDirAll(path) => format!("mkdir {}", text(path)),
            Action::CreateFile(path) => format!("create {}", text(path)),
            Action::WriteFile(path) => format!("write {}", text(path)),
            Action::CopyFile { from, to } => format!("copy {} -> {}", text(from), text(to)),
            Action::Skip(path) => format!("skip {}", text(path)),
            other => format!("{other:?}"),
        })
        .collect()
}

#[test]
fn read_file_hands_the_bytes_on() {
    let path = FilePath::parse("dir/file");
    let bytes = read_file(&path, ReadAttempt::Read(b"file contents".to_vec())).unwrap();
    assert_eq!(bytes, b"file contents");
    let empty = read_file(&path, ReadAttempt::Read(Vec::new())).unwrap();
    assert!(empty.is_empty());
}

#[test]
fn read_file_reports_a_failed_open() {
    let path = FilePath::parse("dir/missing");
    let cause = Error::new(ErrorKind::NotFound, "no such file");
    match read_file(&path, ReadAttempt::NotOpened(cause)) {
        Err(FileError::FileOpen(at, source)) => {
            assert_eq!(text(&at), "dir/missing");
            assert_eq!(source.kind(), ErrorKind::NotFound);
        }
        other => panic!("unexpected outcome: {other:?}"),
    }
}

#[test]
fn read_file_reports_a_failed_read() {
    let path = FilePath::parse("/dir");
    let cause = Error::new(ErrorKind::Other, "is a directory");
    match read_file(&path, ReadAttempt::NotRead(cause)) {
        Err(FileError::FileRead(at, source)) => {
            assert_eq!(text(&at), "/dir");
            assert_eq!(source.kind(), ErrorKind::Other);
        }
        other => panic!("unexpected outcome: {other:?}"),
    }
}

#[test]
fn lossy_read_keeps_well_formed_text() {
    let path = FilePath::parse("dir/file");
    let read = read_file_to_string_lossy(&path, ReadAttempt::Read(b"file contents".to_vec()));
    assert_eq!(read.unwrap(), "file contents");
    let read = read_file_to_string_lossy(&path, ReadAttempt::Read("søren ✓".as_bytes().to_vec()));
    assert_eq!(read.unwrap(), "søren ✓");
    let read = read_file_to_string_lossy(&path, ReadAttempt::Read(Vec::new()));
    assert_eq!(read.unwrap(), "");
}

#[test]
fn lossy_read_replaces_ill_formed_bytes() {
    let path = FilePath::parse("dir/file");
    let bytes = vec![b'a', 0xff, b'b', 0xc3];
    let read = read_file_to_string_lossy(&path, ReadAttempt::Read(bytes));
    assert_eq!(read.unwrap(), "a\u{fffd}b\u{fffd}");
}

#[test]
fn lossy_read_reports_the_failure_of_the_read() {
    let path = FilePath::parse("dir/file");
    let cause = Error::new(ErrorKind::PermissionDenied, "denied");
    match read_file_to_string_lossy(&path, ReadAttempt::NotOpened(cause)) {
        Err(FileError::FileOpen(at, source)) => {
            assert_eq!(text(&at), "dir/file");
            assert_eq!(source.kind(), ErrorKind::PermissionDenied);
        }
        other => panic!("unexpected outcome: {other:?}"),
    }
    let cause = Error::new(ErrorKind::UnexpectedEof, "cut short");
    match read_file_to_string_lossy(&path, ReadAttempt::NotRead(cause)) {
        Err(FileError::FileRead(at, source)) => {
            assert_eq!(text(&at), "dir/file");
            assert_eq!(source.kind(), ErrorKind::UnexpectedEof);
        }
        other => panic!("unexpected outcome: {other:?}"),
    }
}

#[test]
fn write_to_writer_reports_what_the_writer_answered() {
    assert!(write_to_writer(Ok(())).is_ok());
    let cause = Error::new(ErrorKind::BrokenPipe, "closed");
    match write_to_writer(Err(cause)) {
        Err(FileError::WriteError(source)) => assert_eq!(source.kind(), ErrorKind::BrokenPipe),
        other => panic!("unexpected outcome: {other:?}"),
    }
}

#[test]
fn create_file_makes_a_missing_parent_first() {
    let path = FilePath::parse("/work/a/b/file");
    assert_eq!(show(&create_file(&path, false)), vec!["mkdir /work/a/b", "create /work/a/b/file"]);
    assert_eq!(show(&create_file(&path, true)), vec!["create /work/a/b/file"]);
}

#[test]
fn create_file_without_a_parent_only_creates() {
    assert_eq!(show(&create_file(&FilePath::parse("file"), false)), vec!["create file"]);
    assert_eq!(show(&create_file(&FilePath::parse("/"), false)), vec!["create /"]);
    assert_eq!(show(&create_file(&FilePath::parse("/file"), false)), vec!["mkdir /", "create /file"]);
}

#[test]
fn write_to_file_creates_then_writes() {
    let path = FilePath::parse("out/report.txt");
    assert_eq!(
        show(&write_to_file(&path, false)),
        vec!["mkdir out", "create out/report.txt", "write out/report.txt"]
    );
    assert_eq!(
        show(&write_to_file(&path, true)),
        vec!["create out/report.txt", "write out/report.txt"]
    );
}

fn cause(kind: ErrorKind) -> Error {
    Error::new(kind, "refused")
}

#[test]
fn failure_of_a_file_action_names_the_file() {
    let at = || FilePath::parse("a/f");
    match Action::OpenFile(at()).failure(cause(ErrorKind::NotFound)) {
        Some(FileError::FileOpen(path, source)) => {
            assert_eq!(text(&path), "a/f");
            assert_eq!(source.kind(), ErrorKind::NotFound);
        }
        other => panic!("unexpected failure: {other:?}"),
    }
    match Action::ReadFile(at()).failure(cause(ErrorKind::UnexpectedEof)) {
        Some(FileError::FileRead(path, source)) => {
            assert_eq!(text(&path), "a/f");
            assert_eq!(source.kind(), ErrorKind::UnexpectedEof);
        }
        other => panic!("unexpected failure: {other:?}"),
    }
    match Action::CreateFile(at()).failure(cause(ErrorKind::AlreadyExists)) {
        Some(FileError::FileCreate(path, source)) => {
            assert_eq!(text(&path), "a/f");
            assert_eq!(source.kind(), ErrorKind::AlreadyExists);
        }
        other => panic!("unexpected failure: {other:?}"),
    }
    match Action::WriteFile(at()).failure(cause(ErrorKind::WriteZero)) {
        Some(FileError::FileWrite(path, source)) => {
            assert_eq!(text(&path), "a/f");
            assert_eq!(source.kind(), ErrorKind::WriteZero);
        }
        other => panic!("unexpected failure: {other:?}"),
    }
    match Action::RemoveFile(at()).failure(cause(ErrorKind::PermissionDenied)) {
        Some(FileError::FileRemove(path, source)) => {
            assert_eq!(text(&path), "a/f");
            assert_eq!(source.kind(), ErrorKind::PermissionDenied);
        }
        other => panic!("unexpected failure: {other:?}"),
    }
    match Action::Lock(at()).failure(cause(ErrorKind::Interrupted)) {
        Some(FileError::LockAcquisition(path, source)) => {
            assert_eq!(text(&path), "a/f");
            assert_eq!(source.kind(), ErrorKind::Interrupted);
        }
        other => panic!("unexpected failure: {other:?}"),
    }
}

#[test]
fn failure_of_a_directory_action_names_the_directory() {
    let at = || FilePath::parse("/a/b");
    match Action::ReadDir(at()).failure(cause(ErrorKind::NotFound)) {
        Some(FileError::DirRead(path, source)) => {
            assert_eq!(text(&path), "/a/b");
            assert_eq!(source.kind(), ErrorKind::NotFound);
        }
        other => panic!("unexpected failure: {other:?}"),
    }
    for action in [Action::CreateDir(at()), Action::CreateDirAll(at())] {
        match action.failure(cause(ErrorKind::PermissionDenied)) {
            Some(FileError::DirCreate(path, source)) => {
                assert_eq!(text(&path), "/a/b");
                assert_eq!(source.kind(), ErrorKind::PermissionDenied);
            }
            other => panic!("unexpected failure: {other:?}"),
        }
    }
    for action in [Action::RemoveDir(at()), Action::RemoveDirAll(at())] {
        match action.failure(cause(ErrorKind::Other)) {
            Some(FileError::DirRemove(path, source)) => {
                assert_eq!(text(&path), "/a/b");
                assert_eq!(source.kind(), ErrorKind::Other);
            }
            other => panic!("unexpected failure: {other:?}"),
        }
    }
}

#[test]
fn failure_of_an_action_on_two_paths_names_both() {
    let copy = Action::CopyFile { from: FilePath::parse("s/f"), to: FilePath::parse("t/f") };
    match copy.failure(cause(ErrorKind::NotFound)) {
        Some(FileError::FileCopy { from, to, source }) => {
            assert_eq!(text(&from), "s/f");
            assert_eq!(text(&to), "t/f");
            assert_eq!(source.kind(), ErrorKind::NotFound);
        }
        other => panic!("unexpected failure: {other:?}"),
    }
    let rename = Action::Rename { from: FilePath::parse("old"), to: FilePath::parse("new") };
    match rename.failure(cause(ErrorKind::PermissionDenied)) {
        Some(FileError::Rename { from, to, source }) => {
            assert_eq!(text(&from), "old");
            assert_eq!(text(&to), "new");
            assert_eq!(source.kind(), ErrorKind::PermissionDenied);
        }
        other => panic!("unexpected failure: {other:?}"),
    }
}

#[test]
fn failure_of_an_action_without_a_path_carries_the_cause() {
    match Action::CreateTempFile.failure(cause(ErrorKind::PermissionDenied)) {
        Some(FileError::TempFileCreation(source)) => {
            assert_eq!(source.kind(), ErrorKind::PermissionDenied)
        }
        other => panic!("unexpected failure: {other:?}"),
    }
    match Action::Write.failure(cause(ErrorKind::BrokenPipe)) {
        Some(FileError::WriteError(source)) => assert_eq!(source.kind(), ErrorKind::BrokenPipe),
        other => panic!("unexpected failure: {other:?}"),
    }
    let skip = Action::Skip(FilePath::parse("src/mine"));
    assert!(skip.failure(cause(ErrorKind::Other)).is_none());
}
