//! File helpers and the recursive copy, as plans.
//!
//! Nothing here touches the disk.  A caller looks at the disk first, tells
//! what it saw, and gets back the actions to carry out, in order.  When an
//! action fails, [`Action::failure`] names the failure; when a read ends,
//! [`read_file`] says what the caller has got.

use crate::action::{lemma_steps_push, steps, Action, Step};
use crate::error::{Failure, FileError};
use crate::path::{
    absolute, file_name_of, joined, parent_of, root_segment, FilePath, SEPARATOR,
};
use vstd::prelude::*;

verus! {

/// What stands at a path.
#[derive(Debug, Clone, Copy, PartialEq, Eq, Structural)]
pub enum EntryKind {
    /// A regular file.
    File,
    /// A directory.
    Directory,
    /// Nothing, or something that is neither: a symbolic link, a device.
    Other,
}

/// The directory to create before an entry can be made at `path`: the
/// parent of `path`, unless `path` has none or the parent is the empty path.
pub open spec fn parent_steps(path: Seq<Seq<u8>>) -> Seq<Step> {
    match parent_of(path) {
        Some(parent) => if parent.len() > 0 {
            seq![Step::CreateDirAll(parent)]
        } else {
            Seq::empty()
        },
        None => Seq::empty(),
    }
}

/// The steps that create a file at `path`: its parent first, if that is
/// missing.
pub open spec fn create_file_steps(path: Seq<Seq<u8>>, parent_exists: bool) -> Seq<Step> {
    (if parent_exists {
        Seq::empty()
    } else {
        parent_steps(path)
    }) + seq![Step::CreateFile(path)]
}

/// Appends to `plan` the creation of the parent of `path`, where one is
/// needed.
fn push_parent(plan: &mut Vec<Action>, path: &FilePath)
    ensures
        steps(final(plan)@) == steps(old(plan)@) + parent_steps(path@),
{
    match path.parent() {
        Some(parent) => {
            if parent.len() > 0 {
                proof {
                    lemma_steps_push(plan@, Action::CreateDirAll(parent));
                }
                plan.push(Action::CreateDirAll(parent));
                assert(steps(plan@) =~= steps(old(plan)@) + parent_steps(path@));
            } else {
                assert(steps(plan@) =~= steps(old(plan)@) + parent_steps(path@));
            }
        },
        None => {
            assert(steps(plan@) =~= steps(old(plan)@) + parent_steps(path@));
        },
    }
}

/// Plans the creation of a file at `path`.  `parent_exists` tells whether
/// the directory that is to hold it is there; if not, it is created first,
/// with every missing directory above it.
pub fn create_file(path: &FilePath, parent_exists: bool) -> (plan: Vec<Action>)
    ensures
        steps(plan@) == create_file_steps(path@, parent_exists),
{
    let mut plan: Vec<Action> = Vec::new();
    assert(steps(plan@) =~= Seq::empty());
    if !parent_exists {
        push_parent(&mut plan, path);
    }
    proof {
        lemma_steps_push(plan@, Action::CreateFile(*path));
    }
    plan.push(Action::CreateFile(path.clone()));
    assert(steps(plan@) =~= create_file_steps(path@, parent_exists));
    plan
}

/// Plans the writing of data to a new file at `target`: the file is
/// created as [`create_file`] plans it, then written.
pub fn write_to_file(target: &FilePath, parent_exists: bool) -> (plan: Vec<Action>)
    ensures
        steps(plan@) == create_file_steps(target@, parent_exists).push(Step::WriteFile(target@)),
{
    let mut plan = create_file(target, parent_exists);
    proof {
        lemma_steps_push(plan@, Action::WriteFile(*target));
    }
    plan.push(Action::WriteFile(target.clone()));
    plan
}

/// How an attempt to read a file ended.
#[derive(Debug)]
pub enum ReadAttempt {
    /// The file could not be opened.
    NotOpened(std::io::Error),
    /// The file was opened, but reading it failed.
    NotRead(std::io::Error),
    /// The file was read to its end; these are its bytes.
    Read(Vec<u8>),
}

/// What reading the file at `path` comes to, once the attempt has ended.
pub open spec fn read_outcome(path: Seq<Seq<u8>>, attempt: ReadAttempt) -> Result<
    Seq<u8>,
    Failure,
> {
    match attempt {
        ReadAttempt::NotOpened(source) => Err(Failure::FileOpen(path, source)),
        ReadAttempt::NotRead(source) => Err(Failure::FileRead(path, source)),
        ReadAttempt::Read(bytes) => Ok(bytes@),
    }
}

/// The bytes or the failure of a read, as their views.
pub open spec fn bytes_outcome(outcome: Result<Vec<u8>, FileError>) -> Result<Seq<u8>, Failure> {
    match outcome {
        Ok(bytes) => Ok(bytes@),
        Err(error) => Err(error@),
    }
}

/// The contents of the file at `path`, or the failure of the step at which
/// the attempt to read it ended.
pub fn read_file(path: &FilePath, attempt: ReadAttempt) -> (outcome: Result<Vec<u8>, FileError>)
    ensures
        bytes_outcome(outcome) == read_outcome(path@, attempt),
{
    match attempt {
        ReadAttempt::NotOpened(source) => Err(FileError::FileOpen(path.clone(), source)),
        ReadAttempt::NotRead(source) => Err(FileError::FileRead(path.clone(), source)),
        ReadAttempt::Read(bytes) => Ok(bytes),
    }
}

/// The text that bytes stand for when every ill-formed sequence among them
/// is read as the replacement character.
pub uninterp spec fn lossy_text(bytes: Seq<u8>) -> Seq<char>;

/// Decodes `bytes` with `String::from_utf8_lossy`.  The result is that
/// function's, which depends on the bytes alone; bytes that are well-formed
/// UTF-8 come back as the text that they encode.
#[verifier::external_body]
fn decode_lossy(bytes: &[u8]) -> (text: String)
    ensures
        text@ == lossy_text(bytes@),
        vstd::utf8::valid_utf8(bytes@) ==> vstd::utf8::encode_utf8(text@) == bytes@,
{
    String::from_utf8_lossy(bytes).into_owned()
}

/// What reading the file at `path` as text comes to.
pub open spec fn text_outcome(path: Seq<Seq<u8>>, attempt: ReadAttempt) -> Result<
    Seq<char>,
    Failure,
> {
    match read_outcome(path, attempt) {
        Ok(bytes) => Ok(lossy_text(bytes)),
        Err(failure) => Err(failure),
    }
}

/// The text or the failure of a read, as their views.
pub open spec fn string_outcome(outcome: Result<String, FileError>) -> Result<
    Seq<char>,
    Failure,
> {
    match outcome {
        Ok(text) => Ok(text@),
        Err(error) => Err(error@),
    }
}

/// The contents of the file at `path` as text, with every ill-formed
/// sequence replaced; or the failure of the read.
pub fn read_file_to_string_lossy(path: &FilePath, attempt: ReadAttempt) -> (outcome: Result<
    String,
    FileError,
>)
    ensures
        string_outcome(outcome) == text_outcome(path@, attempt),
        outcome matches Ok(text) ==> (attempt matches ReadAttempt::Read(bytes)
            && (vstd::utf8::valid_utf8(bytes@) ==> vstd::utf8::encode_utf8(text@) == bytes@)),
{
    match read_file(path, attempt) {
        Ok(bytes) => Ok(decode_lossy(bytes.as_slice())),
        Err(error) => Err(error),
    }
}

/// What writing to a writer comes to, once the writer has answered.
pub open spec fn write_outcome(written: Result<(), std::io::Error>) -> Result<(), Failure> {
    match written {
        Ok(_) => Ok(()),
        Err(source) => Err(Failure::WriteError(source)),
    }
}

/// Success or the failure of a write, as their views.
pub open spec fn unit_outcome(outcome: Result<(), FileError>) -> Result<(), Failure> {
    match outcome {
        Ok(_) => Ok(()),
        Err(error) => Err(error@),
    }
}

/// The outcome of writing to a writer that answered `written`.
pub fn write_to_writer(written: Result<(), std::io::Error>) -> (outcome: Result<(), FileError>)
    ensures
        unit_outcome(outcome) == write_outcome(written),
{
    match written {
        Ok(_) => Ok(()),
        Err(source) => Err(FileError::WriteError(source)),
    }
}

/// An entry found under the source of a copy.  Its path is relative to the
/// source: it never starts at the root.
#[derive(Debug)]
pub struct TreeEntry {
    relative: FilePath,
    kind: EntryKind,
}

/// What a [`TreeEntry`] says, with its path as components.
pub struct Entry {
    pub relative: Seq<Seq<u8>>,
    pub kind: EntryKind,
}

impl View for TreeEntry {
    type V = Entry;

    closed spec fn view(&self) -> Entry {
        Entry { relative: self.relative@, kind: self.kind }
    }
}

/// The view of an entry that may be missing.
pub open spec fn entry_view(entry: Option<TreeEntry>) -> Option<Entry> {
    match entry {
        Some(entry) => Some(entry@),
        None => None,
    }
}

impl TreeEntry {
    #[verifier::type_invariant]
    spec fn relative_to_source(self) -> bool {
        !absolute(self.relative@)
    }

    /// The entry of the given kind at `relative` below the source; the
    /// empty path stands for the source itself.  A path that starts at the
    /// root is no entry.
    pub fn new(relative: FilePath, kind: EntryKind) -> (entry: Option<TreeEntry>)
        ensures
            entry_view(entry) == if absolute(relative@) {
                None
            } else {
                Some(Entry { relative: relative@, kind })
            },
    {
        if relative.is_absolute() {
            None
        } else {
            Some(TreeEntry { relative, kind })
        }
    }

    /// The entry's path below the source.
    pub fn relative(&self) -> (relative: &FilePath)
        ensures
            relative@ == self@.relative,
            !absolute(relative@),
    {
        proof {
            use_type_invariant(self);
        }
        &self.relative
    }

    /// What the entry is.
    pub fn kind(&self) -> (kind: EntryKind)
        ensures
            kind == self@.kind,
    {
        self.kind
    }
}

/// The views of the entries of a listing.
pub open spec fn listing(entries: Seq<TreeEntry>) -> Seq<Entry> {
    Seq::new(entries.len(), |i: int| entries[i]@)
}

/// What the caller found at the source of a copy.
#[derive(Debug)]
pub enum Source {
    /// A regular file.
    File,
    /// Anything else, walked as a directory: every entry under it, the
    /// source itself included, in any order.
    Tree(Vec<TreeEntry>),
}

/// What the caller found at the target of a copy.
#[derive(Debug, Clone, Copy)]
pub struct Target {
    /// What stands at the target path.
    pub kind: EntryKind,
    /// Whether the directory that would hold the target is there.
    pub parent_exists: bool,
}

/// How many leading components of the source are left out of the target
/// paths: all but the last, so that the source's own name is kept.
pub open spec fn dropped_prefix(source: Seq<Seq<u8>>) -> int {
    match parent_of(source) {
        Some(parent) => parent.len() as int,
        None => 0,
    }
}

/// Where the entry at `relative` below `source` goes under `target`: to
/// its path relative to the parent of `source`.
pub open spec fn destination(
    source: Seq<Seq<u8>>,
    target: Seq<Seq<u8>>,
    relative: Seq<Seq<u8>>,
) -> Seq<Seq<u8>> {
    joined(target, joined(source, relative).skip(dropped_prefix(source)))
}

/// The steps that copy one entry: a directory is created, a file is copied
/// after the directory that is to hold it has been created.
pub open spec fn entry_steps(source: Seq<Seq<u8>>, target: Seq<Seq<u8>>, entry: Entry) -> Seq<
    Step,
> {
    let to = destination(source, target, entry.relative);
    match entry.kind {
        EntryKind::Directory => seq![Step::CreateDirAll(to)],
        EntryKind::File => parent_steps(to) + seq![
            Step::CopyFile { from: joined(source, entry.relative), to },
        ],
        EntryKind::Other => Seq::empty(),
    }
}

/// The steps that copy all of `entries`, in their order.
pub open spec fn tree_steps(
    source: Seq<Seq<u8>>,
    target: Seq<Seq<u8>>,
    entries: Seq<Entry>,
) -> Seq<Step>
    decreases entries.len(),
{
    if entries.len() == 0 {
        Seq::empty()
    } else {
        tree_steps(source, target, entries.drop_last()) + entry_steps(
            source,
            target,
            entries.last(),
        )
    }
}

/// The position of the first entry that is neither file nor directory.
pub open spec fn first_unsupported(entries: Seq<Entry>) -> Option<int>
    decreases entries.len(),
{
    if entries.len() == 0 {
        None
    } else {
        match first_unsupported(entries.drop_last()) {
            Some(index) => Some(index),
            None => if entries.last().kind == EntryKind::Other {
                Some(entries.len() - 1)
            } else {
                None
            },
        }
    }
}

/// What a copy of a file at `source` comes to.
pub open spec fn file_copy_outcome(
    source: Seq<Seq<u8>>,
    target: Seq<Seq<u8>>,
    found: Target,
) -> Result<Seq<Step>, Failure> {
    if found.kind == EntryKind::Directory {
        match file_name_of(source) {
            Some(name) => Ok(seq![Step::CopyFile { from: source, to: target.push(name) }]),
            None => Err(Failure::NoFileName(source)),
        }
    } else {
        Ok(
            (if found.parent_exists {
                Seq::empty()
            } else {
                parent_steps(target)
            }) + seq![Step::CopyFile { from: source, to: target }],
        )
    }
}

/// What a copy of the tree at `source` comes to.
pub open spec fn tree_copy_outcome(
    source: Seq<Seq<u8>>,
    entries: Seq<Entry>,
    target: Seq<Seq<u8>>,
    found: Target,
) -> Result<Seq<Step>, Failure> {
    if found.kind == EntryKind::File {
        Err(Failure::UnexpectedFile(target))
    } else {
        match first_unsupported(entries) {
            Some(index) => Err(
                Failure::UnexpectedFile(joined(source, entries[index].relative)),
            ),
            None => Ok(tree_steps(source, target, entries)),
        }
    }
}

/// The outcome of planning, with plan and failure as their views.
pub open spec fn outcome_view(outcome: Result<Vec<Action>, FileError>) -> Result<
    Seq<Step>,
    Failure,
> {
    match outcome {
        Ok(plan) => Ok(steps(plan@)),
        Err(error) => Err(error@),
    }
}

/// The view of a listing up to and including the entry at `index`.
pub(crate) proof fn lemma_listing_take(entries: Seq<TreeEntry>, index: int)
    requires
        0 <= index < entries.len(),
    ensures
        listing(entries).take(index + 1).drop_last() == listing(entries).take(index),
        listing(entries).take(index + 1).last() == entries[index]@,
{
    assert(listing(entries).take(index + 1).drop_last() =~= listing(entries).take(index));
}

/// Plans the copy of the file at `source` to `target`.
fn copy_file(source: &FilePath, target: &FilePath, found: Target) -> (outcome: Result<
    Vec<Action>,
    FileError,
>)
    ensures
        outcome_view(outcome) == file_copy_outcome(source@, target@, found),
{
    let mut plan: Vec<Action> = Vec::new();
    assert(steps(plan@) =~= Seq::empty());
    let to = match found.kind {
        EntryKind::Directory => {
            let name = match source.file_name() {
                Some(name) => name,
                None => {
                    return Err(FileError::NoFileName(source.clone()));
                },
            };
            proof {
                assert(root_segment()[0] == SEPARATOR);
                assert(root_segment().contains(SEPARATOR));
            }
            let above = source.parent().unwrap();
            let last = source.strip_prefix(&above);
            assert(source@.take(above@.len() as int) =~= above@);
            let last = last.unwrap();
            assert(last@ =~= seq![name@]);
            proof {
                use_type_invariant(source);
                assert(joined(target@, last@) =~= target@.push(name@));
            }
            target.join(&last)
        },
        _ => {
            if !found.parent_exists {
                push_parent(&mut plan, target);
            }
            target.clone()
        },
    };
    let ghost before = steps(plan@);
    let copy = Action::CopyFile { from: source.clone(), to };
    proof {
        lemma_steps_push(plan@, copy);
    }
    plan.push(copy);
    proof {
        assert(steps(plan@) =~= before + seq![copy@]);
        if found.kind == EntryKind::Directory {
            assert(before + seq![copy@] =~= seq![copy@]);
        } else if found.parent_exists {
            assert(before + seq![copy@] =~= Seq::<Step>::empty() + seq![copy@]);
        }
    }
    Ok(plan)
}

/// The components of `source` that are left out of the target paths.
pub open spec fn dropped(source: Seq<Seq<u8>>) -> Seq<Seq<u8>> {
    source.take(dropped_prefix(source))
}

/// The part of `source` that is left out of the target paths: its parent,
/// or nothing where it has none.
pub fn copy_prefix(source: &FilePath) -> (prefix: FilePath)
    ensures
        prefix@ == dropped(source@),
        prefix@.len() == dropped_prefix(source@),
        prefix@.len() <= source@.len(),
{
    match source.parent() {
        Some(parent) => {
            assert(source@.take(parent@.len() as int) =~= parent@);
            parent
        },
        None => {
            let prefix = FilePath::new();
            assert(source@.take(0) =~= prefix@);
            prefix
        },
    }
}

/// Where `entry` goes when `source` is copied to `target`.
pub fn entry_destination(source: &FilePath, target: &FilePath, entry: &TreeEntry) -> (to: FilePath)
    ensures
        to@ == destination(source@, target@, entry@.relative),
{
    let prefix = copy_prefix(source);
    let from = source.join(entry.relative());
    assert(from@.take(prefix@.len() as int) =~= prefix@);
    let below = from.strip_prefix(&prefix).unwrap();
    target.join(&below)
}

/// Appends to `plan` the actions that copy `entry`; an entry that is
/// neither file nor directory is refused, and the plan stays as it is.
pub(crate) fn push_entry(
    plan: &mut Vec<Action>,
    source: &FilePath,
    target: &FilePath,
    entry: &TreeEntry,
) -> (refused: Option<FileError>)
    ensures
        refused is Some <==> entry@.kind == EntryKind::Other,
        refused matches Some(error) ==> error@ == Failure::UnexpectedFile(
            joined(source@, entry@.relative),
        ) && final(plan)@ == old(plan)@,
        refused is None ==> steps(final(plan)@) == steps(old(plan)@) + entry_steps(
            source@,
            target@,
            entry@,
        ),
{
    let from = source.join(entry.relative());
    if let EntryKind::Other = entry.kind() {
        return Some(FileError::UnexpectedFile(from));
    }
    let to = entry_destination(source, target, entry);
    match entry.kind() {
        EntryKind::Directory => {
            proof {
                lemma_steps_push(plan@, Action::CreateDirAll(to));
            }
            plan.push(Action::CreateDirAll(to));
        },
        _ => {
            push_parent(plan, &to);
            let copy = Action::CopyFile { from, to };
            proof {
                lemma_steps_push(plan@, copy);
            }
            plan.push(copy);
        },
    }
    assert(steps(plan@) =~= steps(old(plan)@) + entry_steps(source@, target@, entry@));
    None
}

/// Plans the copy of the tree at `source`, whose entries are `entries`, to
/// `target`.
fn copy_tree(source: &FilePath, entries: &Vec<TreeEntry>, target: &FilePath, found: Target) -> (outcome:
    Result<Vec<Action>, FileError>)
    ensures
        outcome_view(outcome) == tree_copy_outcome(source@, listing(entries@), target@, found),
{
    if let EntryKind::File = found.kind {
        return Err(FileError::UnexpectedFile(target.clone()));
    }
    let mut plan: Vec<Action> = Vec::new();
    let mut i: usize = 0;
    assert(steps(plan@) =~= Seq::empty());
    assert(listing(entries@).take(0) =~= Seq::empty());
    while i < entries.len()
        invariant
            i <= entries.len(),
            found.kind != EntryKind::File,
            first_unsupported(listing(entries@).take(i as int)) is None,
            steps(plan@) == tree_steps(source@, target@, listing(entries@).take(i as int)),
        decreases entries.len() - i,
    {
        let entry = &entries[i];
        proof {
            lemma_listing_take(entries@, i as int);
            assert(listing(entries@)[i as int] == entry@);
        }
        if let Some(error) = push_entry(&mut plan, source, target, entry) {
            proof {
                lemma_first_unsupported_found(listing(entries@), i as int);
            }
            return Err(error);
        }
        i += 1;
    }
    assert(listing(entries@).take(i as int) =~= listing(entries@));
    Ok(plan)
}

/// Where the first unsupported entry stands, once the entries before it are
/// known to be supported.
proof fn lemma_first_unsupported_found(entries: Seq<Entry>, index: int)
    requires
        0 <= index < entries.len(),
        first_unsupported(entries.take(index)) is None,
        entries[index].kind == EntryKind::Other,
    ensures
        first_unsupported(entries) == Some(index),
    decreases entries.len(),
{
    if entries.len() == index + 1 {
        assert(entries.drop_last() =~= entries.take(index));
    } else {
        assert(entries.drop_last().take(index) =~= entries.take(index));
        lemma_first_unsupported_found(entries.drop_last(), index);
    }
}

/// Plans the copy of `source` to `target`.
///
/// * A file goes into a target that is a directory, under its own name; a
///   source without a file name is refused.
/// * A file goes to any other target path itself, after the directory that
///   is to hold it has been created where it is missing.
/// * A tree goes below the target, under the source's own name: each entry
///   to its path relative to the parent of the source.  Directories are
///   created, empty ones too; files are copied.
/// * A tree is never copied onto a file, and an entry that is neither file
///   nor directory stops the copy before anything is done.
pub fn copy(source: &FilePath, found_source: &Source, target: &FilePath, found_target: Target) -> (outcome:
    Result<Vec<Action>, FileError>)
    ensures
        outcome_view(outcome) == match *found_source {
            Source::File => file_copy_outcome(source@, target@, found_target),
            Source::Tree(entries) => tree_copy_outcome(
                source@,
                listing(entries@),
                target@,
                found_target,
            ),
        },
{
    match found_source {
        Source::File => copy_file(source, target, found_target),
        Source::Tree(entries) => copy_tree(source, entries, target, found_target),
    }
}

} // verus!
