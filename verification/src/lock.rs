//! The order in which a path lock is taken, replaced and given up.
//!
//! The locks themselves are the operating system's: advisory whole-file
//! locks on POSIX systems, which bind only those who ask for them, and
//! mandatory ones on Windows, where a directory cannot be locked at all and
//! a file inside it has to stand for it.  What is decided here is the same
//! on both: which call comes next, and when a file may be replaced.  A
//! [`PathLock`] is told what happened and answers with the next call to make.
//!
//! A file that is to be replaced is opened and locked as it stands first.
//! Only when that lock has been granted, so that nobody else holds the old
//! file any more, is the file created anew and the new file locked.

use crate::error::{Failure, FileError};
use crate::path::FilePath;
use vstd::prelude::*;

verus! {

/// How a path is to be locked.
#[derive(Debug, Clone, Copy, PartialEq, Eq, Structural)]
pub enum LockMode {
    /// The file has to be there already; it is locked as it stands.
    Existing,
    /// The file is made anew, after whoever holds the old one has let go.
    Replace,
}

/// How far the taking of a lock has got.
#[derive(Debug, Clone, Copy, PartialEq, Eq, Structural)]
pub enum LockState {
    /// Nothing has been asked of the operating system.
    Idle,
    /// The file as it stands is being opened.
    Opening,
    /// The file as it stands is open, and its lock has been asked for.
    Waiting,
    /// The lock on the old file is held, and the file is being made anew.
    Creating,
    /// The new file is there, and its lock has been asked for.
    Claiming,
    /// The lock is held.
    Held,
    /// The lock was held and has been given up.
    Released,
    /// The lock could not be taken.
    Failed,
}

/// What the caller reports.
#[derive(Debug)]
pub enum LockEvent {
    /// The lock is wanted.
    Start,
    /// The file is open.
    Opened,
    /// The file could not be opened.
    OpenFailed(std::io::Error),
    /// The lock that was asked for has been granted.
    Locked,
    /// The lock that was asked for was refused.
    LockFailed(std::io::Error),
    /// The file has been made anew.
    Created,
    /// The file could not be made anew.
    CreateFailed(FileError),
    /// The holder is done.
    Release,
}

/// The call that the caller is to make next.
#[derive(Debug, Clone, Copy, PartialEq, Eq, Structural)]
pub enum LockAction {
    /// Open the file at the path as it stands.
    Open,
    /// Ask for the exclusive lock on the file last opened or created, and
    /// wait until it is granted.
    Lock,
    /// Create the file at the path, emptying it if it is there.
    Create,
    /// Hand the locked file to the holder.
    Hold,
    /// Give the lock up.
    Unlock,
}

/// The answer to an event.
#[derive(Debug)]
pub enum LockAnswer {
    /// Make this call, then report how it went.
    Do(LockAction),
    /// The lock cannot be taken, for this reason.
    Fail(FileError),
    /// The event does not fit the state: nothing changes.
    Refuse,
}

/// What follows an event: the next state and the answer, with a failure as
/// its view.
pub enum Transition {
    Proceed(LockState, LockAction),
    Fail(Failure),
    Refuse,
}

/// The rules of the protocol: what follows `event` in `state`.
pub open spec fn transition(
    mode: LockMode,
    path: Seq<Seq<u8>>,
    state: LockState,
    event: LockEvent,
) -> Transition {
    match (state, event) {
        (LockState::Idle, LockEvent::Start) => Transition::Proceed(
            LockState::Opening,
            LockAction::Open,
        ),
        (LockState::Opening, LockEvent::Opened) => Transition::Proceed(
            LockState::Waiting,
            LockAction::Lock,
        ),
        (LockState::Opening, LockEvent::OpenFailed(source)) => match mode {
            LockMode::Existing => Transition::Fail(Failure::FileOpen(path, source)),
            LockMode::Replace => Transition::Proceed(LockState::Creating, LockAction::Create),
        },
        (LockState::Waiting, LockEvent::Locked) => match mode {
            LockMode::Existing => Transition::Proceed(LockState::Held, LockAction::Hold),
            LockMode::Replace => Transition::Proceed(LockState::Creating, LockAction::Create),
        },
        (LockState::Waiting, LockEvent::LockFailed(source)) => Transition::Fail(
            Failure::LockAcquisition(path, source),
        ),
        (LockState::Creating, LockEvent::Created) => Transition::Proceed(
            LockState::Claiming,
            LockAction::Lock,
        ),
        (LockState::Creating, LockEvent::CreateFailed(error)) => Transition::Fail(error@),
        (LockState::Claiming, LockEvent::Locked) => Transition::Proceed(
            LockState::Held,
            LockAction::Hold,
        ),
        (LockState::Claiming, LockEvent::LockFailed(source)) => Transition::Fail(
            Failure::LockAcquisition(path, source),
        ),
        (LockState::Held, LockEvent::Release) => Transition::Proceed(
            LockState::Released,
            LockAction::Unlock,
        ),
        _ => Transition::Refuse,
    }
}

/// The state that follows `event` in `state`.
pub open spec fn next_state(
    mode: LockMode,
    path: Seq<Seq<u8>>,
    state: LockState,
    event: LockEvent,
) -> LockState {
    match transition(mode, path, state, event) {
        Transition::Proceed(next, _) => next,
        Transition::Fail(_) => LockState::Failed,
        Transition::Refuse => state,
    }
}

/// The state that a lock is in after `events`, starting idle.
pub open spec fn state_after(mode: LockMode, path: Seq<Seq<u8>>, events: Seq<LockEvent>) -> LockState
    decreases events.len(),
{
    if events.len() == 0 {
        LockState::Idle
    } else {
        next_state(mode, path, state_after(mode, path, events.drop_last()), events.last())
    }
}

/// The view of an answer, together with the state it leaves.
pub open spec fn answered(state: LockState, answer: LockAnswer) -> Transition {
    match answer {
        LockAnswer::Do(action) => Transition::Proceed(state, action),
        LockAnswer::Fail(error) => Transition::Fail(error@),
        LockAnswer::Refuse => Transition::Refuse,
    }
}

/// The taking of an exclusive lock on one path.  It cannot be copied: while
/// it is held, it is the only claim on its path.
#[derive(Debug)]
pub struct PathLock {
    path: FilePath,
    mode: LockMode,
    state: LockState,
}

impl PathLock {
    /// The path that the lock is on.
    pub closed spec fn locked_path(&self) -> Seq<Seq<u8>> {
        self.path@
    }

    /// How the path is locked.
    pub closed spec fn locking_mode(&self) -> LockMode {
        self.mode
    }

    /// How far the taking of the lock has got.
    pub closed spec fn current(&self) -> LockState {
        self.state
    }

    /// A lock on `path` that has not been asked for yet.
    pub fn new(path: FilePath, mode: LockMode) -> (lock: PathLock)
        ensures
            lock.locked_path() == path@,
            lock.locking_mode() == mode,
            lock.current() == LockState::Idle,
    {
        PathLock { path, mode, state: LockState::Idle }
    }

    /// The path that the lock is on.
    pub fn path(&self) -> (path: &FilePath)
        ensures
            path@ == self.locked_path(),
    {
        &self.path
    }

    /// How the path is locked.
    pub fn mode(&self) -> (mode: LockMode)
        ensures
            mode == self.locking_mode(),
    {
        self.mode
    }

    /// How far the taking of the lock has got.
    pub fn state(&self) -> (state: LockState)
        ensures
            state == self.current(),
    {
        self.state
    }

    /// Whether the lock is held.
    pub fn is_held(&self) -> (held: bool)
        ensures
            held == (self.current() == LockState::Held),
    {
        match self.state {
            LockState::Held => true,
            _ => false,
        }
    }

    /// Takes note of `event` and answers with what is to be done next.
    pub fn advance(&mut self, event: LockEvent) -> (answer: LockAnswer)
        ensures
            final(self).locked_path() == old(self).locked_path(),
            final(self).locking_mode() == old(self).locking_mode(),
            final(self).current() == next_state(
                old(self).locking_mode(),
                old(self).locked_path(),
                old(self).current(),
                event,
            ),
            answered(final(self).current(), answer) == transition(
                old(self).locking_mode(),
                old(self).locked_path(),
                old(self).current(),
                event,
            ),
    {
        let (next, action) = match (self.state, event) {
            (LockState::Idle, LockEvent::Start) => (LockState::Opening, LockAction::Open),
            (LockState::Opening, LockEvent::Opened) => (LockState::Waiting, LockAction::Lock),
            (LockState::Opening, LockEvent::OpenFailed(source)) => match self.mode {
                LockMode::Existing => {
                    self.state = LockState::Failed;
                    return LockAnswer::Fail(FileError::FileOpen(self.path.clone(), source));
                },
                LockMode::Replace => (LockState::Creating, LockAction::Create),
            },
            (LockState::Waiting, LockEvent::Locked) => match self.mode {
                LockMode::Existing => (LockState::Held, LockAction::Hold),
                LockMode::Replace => (LockState::Creating, LockAction::Create),
            },
            (LockState::Waiting, LockEvent::LockFailed(source)) => {
                self.state = LockState::Failed;
                return LockAnswer::Fail(FileError::LockAcquisition(self.path.clone(), source));
            },
            (LockState::Creating, LockEvent::Created) => (LockState::Claiming, LockAction::Lock),
            (LockState::Creating, LockEvent::CreateFailed(error)) => {
                self.state = LockState::Failed;
                return LockAnswer::Fail(error);
            },
            (LockState::Claiming, LockEvent::Locked) => (LockState::Held, LockAction::Hold),
            (LockState::Claiming, LockEvent::LockFailed(source)) => {
                self.state = LockState::Failed;
                return LockAnswer::Fail(FileError::LockAcquisition(self.path.clone(), source));
            },
            (LockState::Held, LockEvent::Release) => (LockState::Released, LockAction::Unlock),
            _ => {
                return LockAnswer::Refuse;
            },
        };
        self.state = next;
        LockAnswer::Do(action)
    }
}

/// What follows the event at `position` of a run that started idle.
pub open spec fn transition_at(
    mode: LockMode,
    path: Seq<Seq<u8>>,
    events: Seq<LockEvent>,
    position: int,
) -> Transition {
    transition(mode, path, state_after(mode, path, events.take(position)), events[position])
}

/// Whether the file as it stood was opened at `position` of the run, so
/// that its lock was asked for.
pub open spec fn opened_at(
    mode: LockMode,
    path: Seq<Seq<u8>>,
    events: Seq<LockEvent>,
    position: int,
) -> bool {
    &&& 0 <= position < events.len()
    &&& events[position] is Opened
    &&& transition_at(mode, path, events, position) == Transition::Proceed(
        LockState::Waiting,
        LockAction::Lock,
    )
}

/// A lock that waits for the old file's lock has opened the old file and
/// asked for that lock.
pub proof fn lemma_waiting_has_asked(mode: LockMode, path: Seq<Seq<u8>>, events: Seq<LockEvent>)
    requires
        state_after(mode, path, events) == LockState::Waiting,
    ensures
        exists|position: int| opened_at(mode, path, events, position),
    decreases events.len(),
{
    if events.len() > 0 {
        let before = events.drop_last();
        let last = events.len() - 1;
        assert(events.take(last) =~= before);
        if state_after(mode, path, before) == LockState::Waiting {
            lemma_waiting_has_asked(mode, path, before);
            let position = choose|position: int| opened_at(mode, path, before, position);
            assert(before.take(position) =~= events.take(position));
            assert(before[position] == events[position]);
            assert(opened_at(mode, path, events, position));
        } else {
            assert(opened_at(mode, path, events, last));
        }
    }
}

/// A file is replaced only after the lock on the file as it stood has been
/// granted: whenever the answer to an event is to create the file, either
/// the file could not be opened, or it was opened, its lock was asked for,
/// and the event is the grant of that lock.
pub proof fn lemma_replacement_follows_old_lock(
    path: Seq<Seq<u8>>,
    events: Seq<LockEvent>,
    event: LockEvent,
)
    requires
        transition(LockMode::Replace, path, state_after(LockMode::Replace, path, events), event)
            matches Transition::Proceed(_, action) && action == LockAction::Create,
    ensures
        event is OpenFailed || (event is Locked && exists|position: int|
            opened_at(LockMode::Replace, path, events, position)),
{
    if !(event is OpenFailed) {
        lemma_waiting_has_asked(LockMode::Replace, path, events);
    }
}

/// A lock that is held was granted: the event before the holder got it is
/// the grant of a lock that had been asked for.
pub proof fn lemma_hold_follows_grant(
    mode: LockMode,
    path: Seq<Seq<u8>>,
    state: LockState,
    event: LockEvent,
)
    requires
        transition(mode, path, state, event) matches Transition::Proceed(_, action) && action
            == LockAction::Hold,
    ensures
        event is Locked,
        state == LockState::Waiting || state == LockState::Claiming,
        next_state(mode, path, state, event) == LockState::Held,
{
}

/// A lock that has been given up or has failed stays so.
pub proof fn lemma_end_states_stay(
    mode: LockMode,
    path: Seq<Seq<u8>>,
    events: Seq<LockEvent>,
    position: int,
)
    requires
        0 <= position <= events.len(),
        state_after(mode, path, events.take(position)) == LockState::Released || state_after(
            mode,
            path,
            events.take(position),
        ) == LockState::Failed,
    ensures
        state_after(mode, path, events) == state_after(mode, path, events.take(position)),
    decreases events.len() - position,
{
    if position < events.len() {
        assert(events.take(position + 1).drop_last() =~= events.take(position));
        lemma_end_states_stay(mode, path, events, position + 1);
    } else {
        assert(events.take(position) =~= events);
    }
}

/// A lock is given up once at most: of two events of a run, not both are
/// answered with the call to unlock.
pub proof fn lemma_released_once(
    mode: LockMode,
    path: Seq<Seq<u8>>,
    events: Seq<LockEvent>,
    first: int,
    second: int,
)
    requires
        0 <= first < second < events.len(),
        transition_at(mode, path, events, first) == Transition::Proceed(
            LockState::Released,
            LockAction::Unlock,
        ),
    ensures
        transition_at(mode, path, events, second) == Transition::Refuse,
{
    let upto = events.take(second);
    assert(upto.take(first + 1) =~= events.take(first + 1));
    assert(events.take(first + 1).drop_last() =~= events.take(first));
    assert(events.take(first + 1).last() == events[first]);
    lemma_end_states_stay(mode, path, upto, first + 1);
}

/// The order in which the locks of one scope are given up: the one taken
/// last goes first.
pub fn release_order(acquired: &Vec<FilePath>) -> (order: Vec<FilePath>)
    ensures
        order@.len() == acquired@.len(),
        forall|i: int|
            0 <= i < order@.len() ==> (#[trigger] order@[i])@ == acquired@[acquired@.len() - 1
                - i]@,
{
    let mut order: Vec<FilePath> = Vec::new();
    let mut left: usize = acquired.len();
    while left > 0
        invariant
            left <= acquired.len(),
            order@.len() == acquired@.len() - left,
            forall|i: int|
                0 <= i < order@.len() ==> (#[trigger] order@[i])@ == acquired@[acquired@.len()
                    - 1 - i]@,
        decreases left,
    {
        left -= 1;
        order.push(acquired[left].clone());
    }
    order
}

} // verus!
