//! Merging an update into a workspace without touching the student's work.
//!
//! A merge is a copy of the update's tree in which every entry that the
//! workspace already has, and that the policy counts as the student's, is
//! left alone.  The plan says so for each such entry with a
//! [`Action::Skip`], so that nothing which follows can overwrite it.

use crate::action::{lemma_steps_push, steps, Action, Step};
use crate::error::{Failure, FileError};
use crate::file_util::{
    destination, dropped_prefix, entry_destination, entry_steps, first_unsupported,
    lemma_listing_take, listing, outcome_view, push_entry, tree_steps, Entry, EntryKind, Target,
    TreeEntry,
};
use crate::path::{
    current_segment, is_name, is_prefix, joined, parent_of, root_segment, FilePath, SEPARATOR,
};
use crate::policy::StudentFilePolicy;
use vstd::prelude::*;

verus! {

/// The views of a list of paths.
pub open spec fn paths_view(paths: Seq<FilePath>) -> Seq<Seq<Seq<u8>>> {
    Seq::new(paths.len(), |i: int| paths[i]@)
}

/// Whether the entry at `relative` is out of an update's reach: the
/// workspace has it, and the policy counts it as the student's.
pub open spec fn protected<P: StudentFilePolicy>(
    policy: &P,
    existing: Seq<Seq<Seq<u8>>>,
    relative: Seq<Seq<u8>>,
) -> bool {
    existing.contains(relative) && policy.student_owned(relative)
}

/// The steps that merge one entry: a protected entry is skipped, any other
/// is copied.
pub open spec fn merge_entry_steps<P: StudentFilePolicy>(
    policy: &P,
    existing: Seq<Seq<Seq<u8>>>,
    source: Seq<Seq<u8>>,
    target: Seq<Seq<u8>>,
    entry: Entry,
) -> Seq<Step> {
    if protected(policy, existing, entry.relative) {
        seq![Step::Skip(destination(source, target, entry.relative))]
    } else {
        entry_steps(source, target, entry)
    }
}

/// The steps that merge all of `entries`, in their order.
pub open spec fn merge_steps<P: StudentFilePolicy>(
    policy: &P,
    existing: Seq<Seq<Seq<u8>>>,
    source: Seq<Seq<u8>>,
    target: Seq<Seq<u8>>,
    entries: Seq<Entry>,
) -> Seq<Step>
    decreases entries.len(),
{
    if entries.len() == 0 {
        Seq::empty()
    } else {
        merge_steps(policy, existing, source, target, entries.drop_last()) + merge_entry_steps(
            policy,
            existing,
            source,
            target,
            entries.last(),
        )
    }
}

/// The position of the first entry that is neither file nor directory and
/// is not skipped.
pub open spec fn first_unmergeable<P: StudentFilePolicy>(
    policy: &P,
    existing: Seq<Seq<Seq<u8>>>,
    entries: Seq<Entry>,
) -> Option<int>
    decreases entries.len(),
{
    if entries.len() == 0 {
        None
    } else {
        match first_unmergeable(policy, existing, entries.drop_last()) {
            Some(index) => Some(index),
            None => if entries.last().kind == EntryKind::Other && !protected(
                policy,
                existing,
                entries.last().relative,
            ) {
                Some(entries.len() - 1)
            } else {
                None
            },
        }
    }
}

/// What a merge of the tree at `source` into `target` comes to.
pub open spec fn merge_outcome<P: StudentFilePolicy>(
    policy: &P,
    existing: Seq<Seq<Seq<u8>>>,
    source: Seq<Seq<u8>>,
    entries: Seq<Entry>,
    target: Seq<Seq<u8>>,
    found: Target,
) -> Result<Seq<Step>, Failure> {
    if found.kind == EntryKind::File {
        Err(Failure::UnexpectedFile(target))
    } else {
        match first_unmergeable(policy, existing, entries) {
            Some(index) => Err(
                Failure::UnexpectedFile(joined(source, entries[index].relative)),
            ),
            None => Ok(merge_steps(policy, existing, source, target, entries)),
        }
    }
}

/// Whether `path` is among `paths`, compared by whole components.
pub fn contains_path(paths: &Vec<FilePath>, path: &FilePath) -> (found: bool)
    ensures
        found == paths_view(paths@).contains(path@),
{
    let mut i: usize = 0;
    while i < paths.len()
        invariant
            i <= paths.len(),
            forall|j: int| 0 <= j < i ==> paths_view(paths@)[j] != path@,
        decreases paths.len() - i,
    {
        if paths[i].same_as(path) {
            assert(paths_view(paths@)[i as int] == path@);
            return true;
        }
        i += 1;
    }
    false
}

/// Where the first unmergeable entry stands, once the entries before it are
/// known to be mergeable.
proof fn lemma_first_unmergeable_found<P: StudentFilePolicy>(
    policy: &P,
    existing: Seq<Seq<Seq<u8>>>,
    entries: Seq<Entry>,
    index: int,
)
    requires
        0 <= index < entries.len(),
        first_unmergeable(policy, existing, entries.take(index)) is None,
        entries[index].kind == EntryKind::Other,
        !protected(policy, existing, entries[index].relative),
    ensures
        first_unmergeable(policy, existing, entries) == Some(index),
    decreases entries.len(),
{
    if entries.len() == index + 1 {
        assert(entries.drop_last() =~= entries.take(index));
    } else {
        assert(entries.drop_last().take(index) =~= entries.take(index));
        lemma_first_unmergeable_found(policy, existing, entries.drop_last(), index);
    }
}

/// Plans the merge of the update at `source`, whose entries are `entries`,
/// into `target`.  `existing` lists what the workspace already holds, each
/// path relative to the workspace root, as the entries are to the update's.
///
/// The merge is a copy of the tree, but for the entries that are listed in
/// `existing` and that `policy` counts as the student's: those are skipped.
pub fn merge<P: StudentFilePolicy>(
    policy: &P,
    source: &FilePath,
    entries: &Vec<TreeEntry>,
    target: &FilePath,
    found: Target,
    existing: &Vec<FilePath>,
) -> (outcome: Result<Vec<Action>, FileError>)
    ensures
        outcome_view(outcome) == merge_outcome(
            policy,
            paths_view(existing@),
            source@,
            listing(entries@),
            target@,
            found,
        ),
{
    if let EntryKind::File = found.kind {
        return Err(FileError::UnexpectedFile(target.clone()));
    }
    let mut plan: Vec<Action> = Vec::new();
    let mut i: usize = 0;
    assert(steps(plan@) =~= Seq::empty());
    assert(listing(entries@).take(0) =~= Seq::empty());
    while i < entries.len()
        invariant
            i <= entries.len(),
            found.kind != EntryKind::File,
            first_unmergeable(policy, paths_view(existing@), listing(entries@).take(i as int))
                is None,
            steps(plan@) == merge_steps(
                policy,
                paths_view(existing@),
                source@,
                target@,
                listing(entries@).take(i as int),
            ),
        decreases entries.len() - i,
    {
        let entry = &entries[i];
        proof {
            lemma_listing_take(entries@, i as int);
            assert(listing(entries@)[i as int] == entry@);
        }
        if contains_path(existing, entry.relative()) && policy.is_student_source_file(
            entry.relative(),
        ) {
            let skip = Action::Skip(entry_destination(source, target, entry));
            proof {
                lemma_steps_push(plan@, skip);
            }
            plan.push(skip);
        } else {
            if let Some(error) = push_entry(&mut plan, source, target, entry) {
                proof {
                    lemma_first_unmergeable_found(
                        policy,
                        paths_view(existing@),
                        listing(entries@),
                        i as int,
                    );
                }
                return Err(error);
            }
        }
        i += 1;
    }
    assert(listing(entries@).take(i as int) =~= listing(entries@));
    Ok(plan)
}

/// Whether every component of `path` names an entry or is `..`: the path
/// neither starts at the root nor with `.`.
pub open spec fn plain(path: Seq<Seq<u8>>) -> bool {
    forall|i: int|
        0 <= i < path.len() ==> #[trigger] path[i] != root_segment() && path[i]
            != current_segment()
}

/// The directory below which the entries of `source` land when it is copied
/// to `target`.
pub open spec fn landing(source: Seq<Seq<u8>>, target: Seq<Seq<u8>>) -> Seq<Seq<u8>> {
    let tail = source.skip(dropped_prefix(source));
    if tail.len() > 0 && tail[0] == root_segment() {
        tail
    } else if target.len() == 0 {
        tail
    } else if tail.len() > 0 && tail[0] == current_segment() {
        target + tail.skip(1)
    } else {
        target + tail
    }
}

/// Every entry of a copied tree lands at its own relative path below one
/// directory, which for a named source and a target that is not empty is
/// the target with the source's name appended.
pub proof fn lemma_destination_is_below_landing(
    source: Seq<Seq<u8>>,
    target: Seq<Seq<u8>>,
    relative: Seq<Seq<u8>>,
)
    requires
        plain(relative),
    ensures
        destination(source, target, relative) == landing(source, target) + relative,
        is_name(source.last()) && source.len() > 0 && target.len() > 0 ==> landing(source, target)
            == target.push(source.last()),
{
    let cut = dropped_prefix(source);
    let tail = source.skip(cut);
    if relative.len() > 0 {
        assert(relative[0] != root_segment() && relative[0] != current_segment());
    }
    assert(joined(source, relative) =~= source + relative);
    assert((source + relative).skip(cut) =~= tail + relative);
    let below = tail + relative;
    if tail.len() > 0 {
        assert(below[0] == tail[0]);
        assert(below.skip(1) =~= tail.skip(1) + relative);
        assert(target + (tail.skip(1) + relative) =~= (target + tail.skip(1)) + relative);
    } else {
        assert(below =~= relative);
    }
    assert(target + (tail + relative) =~= (target + tail) + relative);
    assert(joined(target, below) =~= landing(source, target) + relative);
    if is_name(source.last()) && source.len() > 0 && target.len() > 0 {
        assert(root_segment()[0] == SEPARATOR);
        assert(root_segment().contains(SEPARATOR));
        assert(tail =~= seq![source.last()]);
        assert(target + tail =~= target.push(source.last()));
    }
}

/// Two entries with different relative paths go to different places.
pub proof fn lemma_destinations_differ(
    source: Seq<Seq<u8>>,
    target: Seq<Seq<u8>>,
    one: Seq<Seq<u8>>,
    other: Seq<Seq<u8>>,
)
    requires
        plain(one),
        plain(other),
        one != other,
    ensures
        destination(source, target, one) != destination(source, target, other),
{
    lemma_destination_is_below_landing(source, target, one);
    lemma_destination_is_below_landing(source, target, other);
    let base = landing(source, target);
    assert((base + one).skip(base.len() as int) =~= one);
    assert((base + other).skip(base.len() as int) =~= other);
}

/// Whether carrying out `step` overwrites or deletes what stands at `path`.
pub open spec fn writes(step: Step, path: Seq<Seq<u8>>) -> bool {
    match step {
        Step::CopyFile { from, to } => to == path,
        Step::CreateFile(file) => file == path,
        Step::WriteFile(file) => file == path,
        Step::RemoveFile(file) => file == path,
        Step::RemoveDir(dir) => dir == path,
        Step::RemoveDirAll(dir) => is_prefix(dir, path),
        Step::Rename { from, to } => from == path || to == path,
        _ => false,
    }
}

/// Whether the relative path of every entry is plain.
pub open spec fn all_plain(entries: Seq<Entry>) -> bool {
    forall|i: int| 0 <= i < entries.len() ==> plain(#[trigger] entries[i].relative)
}

/// A merge never overwrites the student's work: no step of its plan writes
/// a file which the workspace already has and which the policy counts as the
/// student's, whatever the update holds at that path.
pub proof fn lemma_merge_keeps_student_files<P: StudentFilePolicy>(
    policy: &P,
    existing: Seq<Seq<Seq<u8>>>,
    source: Seq<Seq<u8>>,
    target: Seq<Seq<u8>>,
    entries: Seq<Entry>,
    relative: Seq<Seq<u8>>,
    position: int,
)
    requires
        all_plain(entries),
        plain(relative),
        protected(policy, existing, relative),
        0 <= position < merge_steps(policy, existing, source, target, entries).len(),
    ensures
        !writes(
            merge_steps(policy, existing, source, target, entries)[position],
            destination(source, target, relative),
        ),
    decreases entries.len(),
{
    let before = merge_steps(policy, existing, source, target, entries.drop_last());
    if position < before.len() {
        assert(all_plain(entries.drop_last())) by {
            assert forall|i: int| 0 <= i < entries.drop_last().len() implies plain(
                #[trigger] entries.drop_last()[i].relative,
            ) by {
                assert(entries.drop_last()[i] == entries[i]);
            }
        }
        lemma_merge_keeps_student_files(
            policy,
            existing,
            source,
            target,
            entries.drop_last(),
            relative,
            position,
        );
    } else {
        let entry = entries.last();
        assert(plain(entries[entries.len() - 1].relative));
        if !protected(policy, existing, entry.relative) {
            lemma_destinations_differ(source, target, entry.relative, relative);
        }
    }
}

/// Where nothing is protected, a merge is a copy: it takes the same steps
/// and refuses the same entry.
pub proof fn lemma_merge_of_unprotected_is_copy<P: StudentFilePolicy>(
    policy: &P,
    existing: Seq<Seq<Seq<u8>>>,
    source: Seq<Seq<u8>>,
    target: Seq<Seq<u8>>,
    entries: Seq<Entry>,
)
    requires
        forall|i: int|
            0 <= i < entries.len() ==> !protected(policy, existing, (#[trigger] entries[i]).relative),
    ensures
        merge_steps(policy, existing, source, target, entries) == tree_steps(
            source,
            target,
            entries,
        ),
        first_unmergeable(policy, existing, entries) == first_unsupported(entries),
    decreases entries.len(),
{
    if entries.len() > 0 {
        let before = entries.drop_last();
        assert forall|i: int| 0 <= i < before.len() implies !protected(
            policy,
            existing,
            (#[trigger] before[i]).relative,
        ) by {
            assert(before[i] == entries[i]);
        }
        lemma_merge_of_unprotected_is_copy(policy, existing, source, target, before);
        assert(entries.last() == entries[entries.len() - 1]);
    }
}

/// Whether copying `entry` calls for the directory `dir`: as the place of a
/// directory entry, or as the directory that is to hold a file entry.
pub open spec fn calls_for(
    source: Seq<Seq<u8>>,
    target: Seq<Seq<u8>>,
    entry: Entry,
    dir: Seq<Seq<u8>>,
) -> bool {
    let to = destination(source, target, entry.relative);
    match entry.kind {
        EntryKind::Directory => dir == to,
        EntryKind::File => parent_of(to) == Some(dir),
        EntryKind::Other => false,
    }
}

/// Directories are made only as far as the entries that are copied need
/// them: every directory that a merge creates is the place of a directory
/// entry that is not skipped, or is to hold a file entry that is not skipped.
pub proof fn lemma_merge_creates_needed_directories_only<P: StudentFilePolicy>(
    policy: &P,
    existing: Seq<Seq<Seq<u8>>>,
    source: Seq<Seq<u8>>,
    target: Seq<Seq<u8>>,
    entries: Seq<Entry>,
    position: int,
)
    requires
        0 <= position < merge_steps(policy, existing, source, target, entries).len(),
        merge_steps(policy, existing, source, target, entries)[position] is CreateDirAll,
    ensures
        exists|i: int|
            0 <= i < entries.len() && !protected(policy, existing, (#[trigger] entries[i]).relative)
                && calls_for(
                source,
                target,
                entries[i],
                merge_steps(policy, existing, source, target, entries)[position]->CreateDirAll_0,
            ),
    decreases entries.len(),
{
    let before = merge_steps(policy, existing, source, target, entries.drop_last());
    let dir = merge_steps(policy, existing, source, target, entries)[position]->CreateDirAll_0;
    if position < before.len() {
        lemma_merge_creates_needed_directories_only(
            policy,
            existing,
            source,
            target,
            entries.drop_last(),
            position,
        );
        let i = choose|i: int|
            0 <= i < entries.drop_last().len() && !protected(
                policy,
                existing,
                (#[trigger] entries.drop_last()[i]).relative,
            ) && calls_for(source, target, entries.drop_last()[i], dir);
        assert(entries.drop_last()[i] == entries[i]);
    } else {
        let last = entries.len() - 1;
        assert(entries.last() == entries[last]);
        assert(!protected(policy, existing, entries[last].relative));
        assert(calls_for(source, target, entries[last], dir));
    }
}

} // verus!
