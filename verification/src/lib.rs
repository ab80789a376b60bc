//! Safe merging of exercise template updates into a student's workspace.
//!
//! The crate is the decision-making core of a workspace synchroniser: it
//! never touches the file system itself.  A caller observes the disk, hands
//! the observations over as plain values, and carries out what the library
//! answers.
//!
//! * [`path`] models POSIX paths as sequences of whole components.
//! * [`policy`] tells student-owned paths from instructor-owned ones.
//! * [`error`] is the failure taxonomy shared by all operations.
//! * [`action`] lists the calls a caller makes and names their failures.
//! * [`file_util`] holds the file helpers and the recursive copy planner.
//! * [`sync`] plans policy-guided merges that never touch a student's work.
//! * [`lock`] sequences lock acquisition, replacement and release.

pub mod action;
pub mod error;
pub mod file_util;
pub mod lock;
pub mod path;
pub mod policy;
pub mod sync;

