//! Which paths of a workspace belong to the student.
//!
//! A policy decides, from a path relative to the workspace root alone,
//! whether the entry is the student's own work or the instructor's.  The
//! decision reads no file and keeps no state, so the same path always gets
//! the same answer.

use crate::path::{
    current_segment, kept, kept_pieces, lemma_first_kept, lemma_first_piece_empty, parse_text,
    pieces, root_part, root_segment, FilePath,
};
use vstd::prelude::*;

verus! {

/// Who owns an entry of a workspace.
#[derive(Debug, Clone, Copy, PartialEq, Eq, Structural)]
pub enum Classification {
    /// The student wrote it: an update must leave it alone.
    StudentOwned,
    /// The instructor ships it: an update may overwrite it.
    InstructorOwned,
}

/// A path relative to the workspace root, with its owner.
#[derive(Debug)]
pub struct ClassifiedPath {
    pub path: FilePath,
    pub classification: Classification,
}

/// The name of the directory that holds the student's sources: `src`.
pub open spec fn source_dir() -> Seq<u8> {
    seq![0x73u8, 0x72u8, 0x63u8]
}

/// The rule that the build-tool policies share: a path is the student's iff
/// its first component, taken whole, is `src`.
pub open spec fn in_source_dir(path: Seq<Seq<u8>>) -> bool {
    path.len() > 0 && path[0] == source_dir()
}

/// The owner of `path` under a policy that answers `student_owned`.
pub open spec fn classification_of(student_owned: bool) -> Classification {
    if student_owned {
        Classification::StudentOwned
    } else {
        Classification::InstructorOwned
    }
}

/// What every language's policy offers.
pub trait StudentFilePolicy {
    /// Whether the policy counts `path`, relative to the workspace root, as
    /// the student's.
    spec fn student_owned(&self, path: Seq<Seq<u8>>) -> bool;

    /// The directory that anchors the policy.
    spec fn config_parent(&self) -> Seq<Seq<u8>>;

    /// Whether `path`, relative to the workspace root, is the student's.
    fn is_student_source_file(&self, path: &FilePath) -> (student: bool)
        ensures
            student == self.student_owned(path@),
    ;

    /// The directory that holds the exercise's configuration file.
    fn get_config_file_parent_path(&self) -> (parent: &FilePath)
        ensures
            parent@ == self.config_parent(),
    ;
}

/// Whether the first component of `path` is `src`.
pub fn starts_with_source_dir(path: &FilePath) -> (yes: bool)
    ensures
        yes == in_source_dir(path@),
{
    if path.is_empty() {
        return false;
    }
    let first = path.segment(0);
    let yes = first.len() == 3 && first[0] == 0x73 && first[1] == 0x72 && first[2] == 0x63;
    assert(yes ==> first@ =~= source_dir());
    yes
}

/// Pairs `path` with its owner under `policy`.
pub fn classify<P: StudentFilePolicy>(policy: &P, path: FilePath) -> (classified: ClassifiedPath)
    ensures
        classified.path@ == path@,
        classified.classification == classification_of(policy.student_owned(path@)),
{
    let classification = if policy.is_student_source_file(&path) {
        Classification::StudentOwned
    } else {
        Classification::InstructorOwned
    };
    ClassifiedPath { path, classification }
}

/// The policy of Ant projects.
#[derive(Debug)]
pub struct AntStudentFilePolicy {
    config_file_parent_path: FilePath,
}

impl AntStudentFilePolicy {
    /// A policy anchored at `config_file_parent_path`.
    pub fn new(config_file_parent_path: FilePath) -> (policy: Self)
        ensures
            policy.config_parent() == config_file_parent_path@,
    {
        Self { config_file_parent_path }
    }
}

impl StudentFilePolicy for AntStudentFilePolicy {
    open spec fn student_owned(&self, path: Seq<Seq<u8>>) -> bool {
        in_source_dir(path)
    }

    closed spec fn config_parent(&self) -> Seq<Seq<u8>> {
        self.config_file_parent_path@
    }

    fn is_student_source_file(&self, path: &FilePath) -> (student: bool) {
        starts_with_source_dir(path)
    }

    fn get_config_file_parent_path(&self) -> (parent: &FilePath) {
        &self.config_file_parent_path
    }
}

/// The policy of Make projects.
#[derive(Debug)]
pub struct MakeStudentFilePolicy {
    config_file_parent_path: FilePath,
}

impl MakeStudentFilePolicy {
    /// A policy anchored at `config_file_parent_path`.
    pub fn new(config_file_parent_path: FilePath) -> (policy: Self)
        ensures
            policy.config_parent() == config_file_parent_path@,
    {
        Self { config_file_parent_path }
    }
}

impl StudentFilePolicy for MakeStudentFilePolicy {
    open spec fn student_owned(&self, path: Seq<Seq<u8>>) -> bool {
        in_source_dir(path)
    }

    closed spec fn config_parent(&self) -> Seq<Seq<u8>> {
        self.config_file_parent_path@
    }

    fn get_config_file_parent_path(&self) -> (parent: &FilePath) {
        &self.config_file_parent_path
    }

    fn is_student_source_file(&self, path: &FilePath) -> (student: bool) {
        starts_with_source_dir(path)
    }
}

/// The shared rule, said of the text of a path: the path is the student's
/// iff the text before its first separator is exactly `src`.  So `src/file`
/// and `src/dir/file` are the student's, and `file`, `dir/src/file` and
/// `srca/file` are not.
pub proof fn lemma_student_owned_iff_first_segment_is_src(text: Seq<u8>)
    ensures
        pieces(text).len() >= 1,
        in_source_dir(parse_text(text)) <==> pieces(text)[0] == source_dir(),
{
    let all = pieces(text);
    lemma_first_piece_empty(text);
    lemma_first_kept(all);
    let first = all[0];
    if first.len() == 0 {
        assert(first != source_dir());
        if text.len() == 0 {
            assert(parse_text(text) =~= Seq::empty());
        } else {
            assert(parse_text(text)[0] == root_segment());
            assert(root_segment() != source_dir());
        }
    } else {
        assert(source_dir() != current_segment());
        assert(kept(first, 0));
        assert(root_part(text) =~= Seq::empty());
        assert(parse_text(text) =~= kept_pieces(all));
    }
}

} // verus!
