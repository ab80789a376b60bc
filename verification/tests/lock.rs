use std::io::{Error, ErrorKind};
use tmc_langs_util::error::FileError;
use tmc_langs_util::lock::{
    release_order, LockAction, LockAnswer, LockEvent, LockMode, LockState, PathLock,
};
use tmc_langs_util::path::FilePath;

fn text(path: &FilePath) -> String {
    String::from_utf8(path.to_bytes()).unwrap()
}

fn act(lock: &mut PathLock, event: LockEvent) -> LockAction {
    match lock.advance(event) {
        LockAnswer::Do(action) => action,
        other => panic!("unexpected answer: {other:?}"),
    }
}

fn refused(lock: &mut PathLock, event: LockEvent) -> bool {
    let before = lock.state();
    let answer = lock.advance(event);
    matches!(answer, LockAnswer::Refuse) && lock.state() == before
}

#[test]
fn new_lock_is_idle() {
    let lock = PathLock::new(FilePath::parse("/work/.lock"), LockMode::Existing);
    assert_eq!(lock.state(), LockState::Idle);
    assert_eq!(lock.mode(), LockMode::Existing);
    assert_eq!(text(lock.path()), "/work/.lock");
    assert!(!lock.is_held());
}

#[test]
fn existing_file_is_opened_then_locked() {
    let mut lock = PathLock::new(FilePath::parse("/work/.lock"), LockMode::Existing);
    assert_eq!(act(&mut lock, LockEvent::Start), LockAction::Open);
    assert_eq!(lock.state(), LockState::Opening);
    assert_eq!(act(&mut lock, LockEvent::Opened), LockAction::Lock);
    assert_eq!(lock.state(), LockState::Waiting);
    assert!(!lock.is_held());
    assert_eq!(act(&mut lock, LockEvent::Locked), LockAction::Hold);
    assert_eq!(lock.state(), LockState::Held);
    assert!(lock.is_held());
    assert_eq!(act(&mut lock, LockEvent::Release), LockAction::Unlock);
    assert_eq!(lock.state(), LockState::Released);
    assert!(!lock.is_held());
}

#[test]
fn existing_file_that_is_absent_fails() {
    let mut lock = PathLock::new(FilePath::parse("/work/.lock"), LockMode::Existing);
    act(&mut lock, LockEvent::Start);
    let cause = Error::new(ErrorKind::NotFound, "no such file");
    match lock.advance(LockEvent::OpenFailed(cause)) {
        LockAnswer::Fail(FileError::FileOpen(at, source)) => {
            assert_eq!(text(&at), "/work/.lock");
            assert_eq!(source.kind(), ErrorKind::NotFound);
        }
        other => panic!("unexpected answer: {other:?}"),
    }
    assert_eq!(lock.state(), LockState::Failed);
    assert!(refused(&mut lock, LockEvent::Start));
    assert!(refused(&mut lock, LockEvent::Locked));
}

#[test]
fn replacement_waits_for_the_lock_on_the_old_file() {
    let mut lock = PathLock::new(FilePath::parse("/work/results.json"), LockMode::Replace);
    assert_eq!(act(&mut lock, LockEvent::Start), LockAction::Open);
    assert_eq!(act(&mut lock, LockEvent::Opened), LockAction::Lock);
    assert_eq!(lock.state(), LockState::Waiting);
    // While somebody else holds the old file, nothing that is reported gets
    // the file created.
    assert!(refused(&mut lock, LockEvent::Created));
    assert!(refused(&mut lock, LockEvent::Start));
    assert!(refused(&mut lock, LockEvent::Opened));
    assert!(refused(&mut lock, LockEvent::Release));
    assert!(refused(&mut lock, LockEvent::OpenFailed(Error::new(ErrorKind::NotFound, "gone"))));
    assert_eq!(lock.state(), LockState::Waiting);
    // The other holder lets go: the lock is granted, and only now is the
    // file replaced.
    assert_eq!(act(&mut lock, LockEvent::Locked), LockAction::Create);
    assert_eq!(lock.state(), LockState::Creating);
    assert_eq!(act(&mut lock, LockEvent::Created), LockAction::Lock);
    assert_eq!(lock.state(), LockState::Claiming);
    assert_eq!(act(&mut lock, LockEvent::Locked), LockAction::Hold);
    assert!(lock.is_held());
}

#[test]
fn replacement_of_an_absent_file_creates_at_once() {
    let mut lock = PathLock::new(FilePath::parse("/work/results.json"), LockMode::Replace);
    assert_eq!(act(&mut lock, LockEvent::Start), LockAction::Open);
    let cause = Error::new(ErrorKind::NotFound, "no such file");
    assert_eq!(act(&mut lock, LockEvent::OpenFailed(cause)), LockAction::Create);
    assert_eq!(act(&mut lock, LockEvent::Created), LockAction::Lock);
    assert_eq!(act(&mut lock, LockEvent::Locked), LockAction::Hold);
    assert_eq!(lock.state(), LockState::Held);
}

#[test]
fn refused_lock_is_reported_with_the_path() {
    for mode in [LockMode::Existing, LockMode::Replace] {
        let mut lock = PathLock::new(FilePath::parse("dir/file"), mode);
        act(&mut lock, LockEvent::Start);
        act(&mut lock, LockEvent::Opened);
        let cause = Error::new(ErrorKind::Interrupted, "signal");
        match lock.advance(LockEvent::LockFailed(cause)) {
            LockAnswer::Fail(FileError::LockAcquisition(at, source)) => {
                assert_eq!(text(&at), "dir/file");
                assert_eq!(source.kind(), ErrorKind::Interrupted);
            }
            other => panic!("unexpected answer: {other:?}"),
        }
        assert_eq!(lock.state(), LockState::Failed);
    }
    let mut lock = PathLock::new(FilePath::parse("dir/file"), LockMode::Replace);
    act(&mut lock, LockEvent::Start);
    act(&mut lock, LockEvent::OpenFailed(Error::new(ErrorKind::NotFound, "absent")));
    act(&mut lock, LockEvent::Created);
    match lock.advance(LockEvent::LockFailed(Error::new(ErrorKind::Interrupted, "signal"))) {
        LockAnswer::Fail(FileError::LockAcquisition(at, _)) => assert_eq!(text(&at), "dir/file"),
        other => panic!("unexpected answer: {other:?}"),
    }
}

#[test]
fn failed_creation_is_handed_on() {
    let mut lock = PathLock::new(FilePath::parse("/ro/file"), LockMode::Replace);
    act(&mut lock, LockEvent::Start);
    act(&mut lock, LockEvent::OpenFailed(Error::new(ErrorKind::NotFound, "absent")));
    let failure = FileError::FileCreate(
        FilePath::parse("/ro/file"),
        Error::new(ErrorKind::PermissionDenied, "read-only"),
    );
    match lock.advance(LockEvent::CreateFailed(failure)) {
        LockAnswer::Fail(FileError::FileCreate(at, source)) => {
            assert_eq!(text(&at), "/ro/file");
            assert_eq!(source.kind(), ErrorKind::PermissionDenied);
        }
        other => panic!("unexpected answer: {other:?}"),
    }
    assert_eq!(lock.state(), LockState::Failed);
}

#[test]
fn lock_is_given_up_once() {
    let mut lock = PathLock::new(FilePath::parse("/work/.lock"), LockMode::Existing);
    act(&mut lock, LockEvent::Start);
    act(&mut lock, LockEvent::Opened);
    assert!(refused(&mut lock, LockEvent::Release));
    act(&mut lock, LockEvent::Locked);
    assert_eq!(act(&mut lock, LockEvent::Release), LockAction::Unlock);
    assert!(refused(&mut lock, LockEvent::Release));
    assert!(refused(&mut lock, LockEvent::Start));
    assert!(refused(&mut lock, LockEvent::Locked));
    assert_eq!(lock.state(), LockState::Released);
}

#[test]
fn events_out_of_turn_change_nothing() {
    let mut lock = PathLock::new(FilePath::parse("/work/.lock"), LockMode::Replace);
    assert!(refused(&mut lock, LockEvent::Opened));
    assert!(refused(&mut lock, LockEvent::Locked));
    assert!(refused(&mut lock, LockEvent::Created));
    assert!(refused(&mut lock, LockEvent::Release));
    assert_eq!(lock.state(), LockState::Idle);
    act(&mut lock, LockEvent::Start);
    assert!(refused(&mut lock, LockEvent::Locked));
    assert!(refused(&mut lock, LockEvent::Created));
    assert_eq!(lock.state(), LockState::Opening);
}

#[test]
fn locks_are_released_in_reverse_order() {
    let acquired: Vec<FilePath> =
        ["/a", "/b/c", "/d"].iter().map(|path| FilePath::parse(path)).collect();
    let order: Vec<String> = release_order(&acquired).iter().map(text).collect();
    assert_eq!(order, vec!["/d", "/b/c", "/a"]);
    assert!(release_order(&Vec::new()).is_empty());
    let one = release_order(&vec![FilePath::parse("only")]);
    assert_eq!(one.len(), 1);
    assert_eq!(text(&one[0]), "only");
}
