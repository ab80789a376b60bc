//! Paths as sequences of whole components.
//!
//! A path is written as bytes with `/` between its components.  Reading it
//! yields the components in order: a leading `/` becomes the root component,
//! a leading `.` is kept, empty pieces and every other `.` are dropped, and
//! `..` is kept wherever it stands.  All comparisons (prefix, equality) are
//! made component by component, never on the raw text.

use vstd::prelude::*;
use vstd::slice::slice_to_vec;
use vstd::string::StringSliceAdditionalSpecFns;

verus! {

/// The byte that separates the components of a path.
pub const SEPARATOR: u8 = 0x2f;

/// The byte of which the `.` and `..` components are made.
pub const DOT: u8 = 0x2e;

/// The component that stands for the root directory: `/`.
pub open spec fn root_segment() -> Seq<u8> {
    seq![SEPARATOR]
}

/// The component that stands for the current directory: `.`.
pub open spec fn current_segment() -> Seq<u8> {
    seq![DOT]
}

/// The component that stands for the enclosing directory: `..`.
pub open spec fn parent_segment() -> Seq<u8> {
    seq![DOT, DOT]
}

/// Whether `segment` names an entry: it is not empty, holds no separator and
/// is none of the special components.
pub open spec fn is_name(segment: Seq<u8>) -> bool {
    &&& segment.len() > 0
    &&& !segment.contains(SEPARATOR)
    &&& segment != current_segment()
    &&& segment != parent_segment()
}

/// Whether `segment` may stand at position `index` of a path.
pub open spec fn valid_segment(segment: Seq<u8>, index: int) -> bool {
    ||| is_name(segment)
    ||| segment == parent_segment()
    ||| index == 0 && segment == root_segment()
    ||| index == 0 && segment == current_segment()
}

/// Whether `segments` is a sequence of components as reading a text yields
/// it: the root and `.` stand only in front.
pub open spec fn well_formed(segments: Seq<Seq<u8>>) -> bool {
    forall|i: int| 0 <= i < segments.len() ==> valid_segment(#[trigger] segments[i], i)
}

/// The pieces of `text` between its separators, empty ones included.
pub open spec fn pieces(text: Seq<u8>) -> Seq<Seq<u8>>
    decreases text.len(),
{
    if text.len() == 0 {
        seq![Seq::empty()]
    } else {
        let before = pieces(text.drop_last());
        if text.last() == SEPARATOR {
            before.push(Seq::empty())
        } else {
            before.drop_last().push(before.last().push(text.last()))
        }
    }
}

/// Whether the piece at `index` is kept as a component: empty pieces are
/// dropped, and so is every `.` but a leading one.
pub open spec fn kept(piece: Seq<u8>, index: int) -> bool {
    piece.len() > 0 && (piece != current_segment() || index == 0)
}

/// The pieces that are kept as components, in order.
pub open spec fn kept_pieces(all: Seq<Seq<u8>>) -> Seq<Seq<u8>>
    decreases all.len(),
{
    if all.len() == 0 {
        Seq::empty()
    } else {
        let before = kept_pieces(all.drop_last());
        if kept(all.last(), all.len() - 1) {
            before.push(all.last())
        } else {
            before
        }
    }
}

/// The root component, if `text` starts with a separator.
pub open spec fn root_part(text: Seq<u8>) -> Seq<Seq<u8>> {
    if text.len() > 0 && text[0] == SEPARATOR {
        seq![root_segment()]
    } else {
        Seq::empty()
    }
}

/// The components that the path written as `text` consists of.
pub open spec fn parse_text(text: Seq<u8>) -> Seq<Seq<u8>> {
    root_part(text) + kept_pieces(pieces(text))
}

/// Whether `path` starts at the root.
pub open spec fn absolute(path: Seq<Seq<u8>>) -> bool {
    path.len() > 0 && path[0] == root_segment()
}

/// Whether `base` is a prefix of `path`, component by component.
pub open spec fn is_prefix(base: Seq<Seq<u8>>, path: Seq<Seq<u8>>) -> bool {
    base.len() <= path.len() && path.take(base.len() as int) == base
}

/// `path` with `other` appended.  An absolute `other` replaces `path`; a
/// leading `.` of `other` disappears behind a non-empty `path`.
pub open spec fn joined(path: Seq<Seq<u8>>, other: Seq<Seq<u8>>) -> Seq<Seq<u8>> {
    if other.len() > 0 && other[0] == root_segment() {
        other
    } else if path.len() == 0 {
        other
    } else if other.len() > 0 && other[0] == current_segment() {
        path + other.skip(1)
    } else {
        path + other
    }
}

/// The path without its last component; none for the empty path and for the
/// root.
pub open spec fn parent_of(path: Seq<Seq<u8>>) -> Option<Seq<Seq<u8>>> {
    if path.len() == 0 || path.last() == root_segment() {
        None
    } else {
        Some(path.drop_last())
    }
}

/// The last component, if it names an entry.
pub open spec fn file_name_of(path: Seq<Seq<u8>>) -> Option<Seq<u8>> {
    if path.len() > 0 && is_name(path.last()) {
        Some(path.last())
    } else {
        None
    }
}

/// What is left of `path` behind `base`; none unless `base` is a prefix.
pub open spec fn stripped(path: Seq<Seq<u8>>, base: Seq<Seq<u8>>) -> Option<Seq<Seq<u8>>> {
    if is_prefix(base, path) {
        Some(path.skip(base.len() as int))
    } else {
        None
    }
}

/// The views of a vector of components.
pub open spec fn segments_view(segments: Seq<Vec<u8>>) -> Seq<Seq<u8>> {
    Seq::new(segments.len(), |i: int| segments[i]@)
}

/// A path, held as its components.
#[derive(Debug)]
pub struct FilePath {
    segments: Vec<Vec<u8>>,
}

impl View for FilePath {
    type V = Seq<Seq<u8>>;

    closed spec fn view(&self) -> Seq<Seq<u8>> {
        segments_view(self.segments@)
    }
}

/// Whether two byte strings hold the same bytes.
pub fn bytes_equal(left: &[u8], right: &[u8]) -> (same: bool)
    ensures
        same == (left@ == right@),
{
    if left.len() != right.len() {
        return false;
    }
    let mut i: usize = 0;
    while i < left.len()
        invariant
            left.len() == right.len(),
            i <= left.len(),
            left@.take(i as int) == right@.take(i as int),
        decreases left.len() - i,
    {
        if left[i] != right[i] {
            return false;
        }
        assert(left@.take(i + 1) =~= left@.take(i as int).push(left@[i as int]));
        assert(right@.take(i + 1) =~= right@.take(i as int).push(right@[i as int]));
        i += 1;
    }
    assert(left@ =~= left@.take(i as int));
    assert(right@ =~= right@.take(i as int));
    true
}

fn is_root_bytes(segment: &[u8]) -> (yes: bool)
    ensures
        yes == (segment@ == root_segment()),
{
    let yes = segment.len() == 1 && segment[0] == SEPARATOR;
    assert(yes ==> segment@ =~= root_segment());
    yes
}

fn is_current_bytes(segment: &[u8]) -> (yes: bool)
    ensures
        yes == (segment@ == current_segment()),
{
    let yes = segment.len() == 1 && segment[0] == DOT;
    assert(yes ==> segment@ =~= current_segment());
    yes
}

fn is_parent_bytes(segment: &[u8]) -> (yes: bool)
    ensures
        yes == (segment@ == parent_segment()),
{
    let yes = segment.len() == 2 && segment[0] == DOT && segment[1] == DOT;
    assert(yes ==> segment@ =~= parent_segment());
    yes
}

fn is_special_bytes(segment: &[u8]) -> (yes: bool)
    ensures
        yes == (segment@ == root_segment() || segment@ == current_segment() || segment@
            == parent_segment()),
{
    is_root_bytes(segment) || is_current_bytes(segment) || is_parent_bytes(segment)
}

impl FilePath {
    /// Every path is well-formed.
    #[verifier::type_invariant]
    pub open spec fn inv(self) -> bool {
        well_formed(self@)
    }

    /// The empty path.
    pub fn new() -> (path: FilePath)
        ensures
            path@ == Seq::<Seq<u8>>::empty(),
    {
        let segments: Vec<Vec<u8>> = Vec::new();
        assert(segments_view(segments@) =~= Seq::empty());
        FilePath { segments }
    }

    /// Reads the path that `text` writes.
    pub fn from_bytes(text: &[u8]) -> (path: FilePath)
        ensures
            path@ == parse_text(text@),
    {
        let mut done: Vec<Vec<u8>> = Vec::new();
        if text.len() > 0 && text[0] == SEPARATOR {
            let mut root: Vec<u8> = Vec::new();
            root.push(SEPARATOR);
            assert(root@ =~= root_segment());
            done.push(root);
        }
        let mut current: Vec<u8> = Vec::new();
        let mut first = true;
        let mut i: usize = 0;
        proof {
            assert(text@.take(0) =~= Seq::empty());
            assert(pieces(text@.take(0)) =~= seq![Seq::<u8>::empty()]);
            assert(pieces(text@.take(0)).drop_last() =~= Seq::empty());
            assert(segments_view(done@) =~= root_part(text@) + kept_pieces(
                pieces(text@.take(0)).drop_last(),
            ));
        }
        while i < text.len()
            invariant
                i <= text.len(),
                pieces(text@.take(i as int)).len() >= 1,
                current@ == pieces(text@.take(i as int)).last(),
                first == (pieces(text@.take(i as int)).len() == 1),
                first && i > 0 ==> text@[0] != SEPARATOR,
                segments_view(done@) == root_part(text@) + kept_pieces(
                    pieces(text@.take(i as int)).drop_last(),
                ),
                !current@.contains(SEPARATOR),
                well_formed(segments_view(done@)),
            decreases text.len() - i,
        {
            let byte = text[i];
            let ghost before = pieces(text@.take(i as int));
            proof {
                assert(text@.take(i + 1).drop_last() =~= text@.take(i as int));
                assert(text@.take(i + 1).last() == byte);
            }
            if byte == SEPARATOR {
                if current.len() > 0 && (first || !is_current_bytes(current.as_slice())) {
                    proof {
                        lemma_push_kept(done@, current, first);
                    }
                    done.push(current);
                }
                current = Vec::new();
                first = false;
                proof {
                    assert(pieces(text@.take(i + 1)) == before.push(Seq::empty()));
                    assert(pieces(text@.take(i + 1)).drop_last() =~= before);
                }
            } else {
                current.push(byte);
                proof {
                    assert(pieces(text@.take(i + 1)) == before.drop_last().push(
                        before.last().push(byte),
                    ));
                    assert(pieces(text@.take(i + 1)).drop_last() =~= before.drop_last());
                    assert forall|k: int| 0 <= k < current@.len() implies current@[k]
                        != SEPARATOR by {
                        if k < current@.len() - 1 {
                            assert(before.last()[k] == current@[k]);
                            assert(before.last().contains(current@[k]));
                        }
                    }
                }
            }
            i += 1;
        }
        proof {
            assert(text@.take(i as int) =~= text@);
        }
        if current.len() > 0 && (first || !is_current_bytes(current.as_slice())) {
            proof {
                lemma_push_kept(done@, current, first);
            }
            done.push(current);
        }
        FilePath { segments: done }
    }

    /// Reads the path that `text` writes.
    pub fn parse(text: &str) -> (path: FilePath)
        ensures
            path@ == parse_text(text.spec_bytes()),
    {
        FilePath::from_bytes(text.as_bytes())
    }
}

/// A copy of the components `segments[from..]`.
fn copy_segments(segments: &Vec<Vec<u8>>, from: usize) -> (copy: Vec<Vec<u8>>)
    requires
        from <= segments.len(),
    ensures
        segments_view(copy@) == segments_view(segments@).skip(from as int),
{
    let mut copy: Vec<Vec<u8>> = Vec::new();
    let mut i: usize = from;
    assert(segments_view(copy@) =~= segments_view(segments@).subrange(from as int, i as int));
    while i < segments.len()
        invariant
            from <= i <= segments.len(),
            segments_view(copy@) == segments_view(segments@).subrange(from as int, i as int),
        decreases segments.len() - i,
    {
        let segment = slice_to_vec(segments[i].as_slice());
        proof {
            lemma_view_push(copy@, segment);
        }
        copy.push(segment);
        assert(segments_view(copy@) =~= segments_view(segments@).subrange(
            from as int,
            i + 1,
        ));
        i += 1;
    }
    assert(segments_view(segments@).subrange(from as int, i as int) =~= segments_view(
        segments@,
    ).skip(from as int));
    copy
}

/// Appends a copy of the components `more[from..]` to `segments`.
fn extend_segments(segments: &mut Vec<Vec<u8>>, more: &Vec<Vec<u8>>, from: usize)
    requires
        from <= more.len(),
    ensures
        segments_view(final(segments)@) == segments_view(old(segments)@) + segments_view(
            more@,
        ).skip(from as int),
{
    let mut i: usize = from;
    assert(segments_view(segments@) =~= segments_view(old(segments)@) + segments_view(
        more@,
    ).subrange(from as int, i as int));
    while i < more.len()
        invariant
            from <= i <= more.len(),
            segments_view(segments@) == segments_view(old(segments)@) + segments_view(
                more@,
            ).subrange(from as int, i as int),
        decreases more.len() - i,
    {
        let segment = slice_to_vec(more[i].as_slice());
        proof {
            lemma_view_push(segments@, segment);
        }
        segments.push(segment);
        assert(segments_view(segments@) =~= segments_view(old(segments)@) + segments_view(
            more@,
        ).subrange(from as int, i + 1));
        i += 1;
    }
    assert(segments_view(more@).subrange(from as int, i as int) =~= segments_view(more@).skip(
        from as int,
    ));
}

impl Clone for FilePath {
    fn clone(&self) -> (copy: Self)
        ensures
            copy@ == self@,
    {
        proof {
            use_type_invariant(self);
        }
        let segments = copy_segments(&self.segments, 0);
        assert(segments_view(self.segments@).skip(0) =~= segments_view(self.segments@));
        FilePath { segments }
    }
}

impl FilePath {
    /// The number of components.
    pub fn len(&self) -> (count: usize)
        ensures
            count == self@.len(),
    {
        self.segments.len()
    }

    /// Whether the path has no component at all.
    pub fn is_empty(&self) -> (empty: bool)
        ensures
            empty == (self@.len() == 0),
    {
        self.segments.len() == 0
    }

    /// The component at `index`.
    pub fn segment(&self, index: usize) -> (segment: &[u8])
        requires
            index < self@.len(),
        ensures
            segment@ == self@[index as int],
    {
        self.segments[index].as_slice()
    }

    /// Whether the path starts with the root component.
    pub fn is_absolute(&self) -> (rooted: bool)
        ensures
            rooted == absolute(self@),
    {
        self.segments.len() > 0 && is_root_bytes(self.segments[0].as_slice())
    }

    /// Whether both paths consist of the same components.
    pub fn same_as(&self, other: &FilePath) -> (same: bool)
        ensures
            same == (self@ == other@),
    {
        assert(other@.take(other@.len() as int) =~= other@);
        self.segments.len() == other.segments.len() && other.starts_with(self)
    }

    /// Whether `base` is a prefix of this path, compared by whole components.
    pub fn starts_with(&self, base: &FilePath) -> (yes: bool)
        ensures
            yes == is_prefix(base@, self@),
    {
        if base.segments.len() > self.segments.len() {
            return false;
        }
        let mut i: usize = 0;
        while i < base.segments.len()
            invariant
                base.segments.len() <= self.segments.len(),
                i <= base.segments.len(),
                self@.take(i as int) == base@.take(i as int),
            decreases base.segments.len() - i,
        {
            if !bytes_equal(self.segments[i].as_slice(), base.segments[i].as_slice()) {
                assert(self@.take(base@.len() as int)[i as int] == self@[i as int]);
                return false;
            }
            assert(self@.take(i + 1) =~= self@.take(i as int).push(self@[i as int]));
            assert(base@.take(i + 1) =~= base@.take(i as int).push(base@[i as int]));
            i += 1;
        }
        assert(base@.take(i as int) =~= base@);
        true
    }

    /// What is left of this path behind `base`, if `base` is a prefix of it.
    pub fn strip_prefix(&self, base: &FilePath) -> (rest: Option<FilePath>)
        ensures
            option_view(rest) == stripped(self@, base@),
    {
        if !self.starts_with(base) {
            return None;
        }
        proof {
            use_type_invariant(self);
        }
        let segments = copy_segments(&self.segments, base.segments.len());
        assert(well_formed(segments_view(segments@))) by {
            let whole = self@;
            let skip = base@.len() as int;
            assert forall|i: int| 0 <= i < segments_view(segments@).len() implies valid_segment(
                #[trigger] segments_view(segments@)[i],
                i,
            ) by {
                assert(segments_view(segments@)[i] == whole[i + skip]);
                assert(valid_segment(whole[i + skip], i + skip));
            }
        }
        Some(FilePath { segments })
    }

    /// This path with `other` appended.
    pub fn join(&self, other: &FilePath) -> (path: FilePath)
        ensures
            path@ == joined(self@, other@),
    {
        proof {
            use_type_invariant(self);
            use_type_invariant(other);
        }
        if other.is_absolute() || self.segments.len() == 0 {
            return other.clone();
        }
        let from: usize = if other.segments.len() > 0 && is_current_bytes(
            other.segments[0].as_slice(),
        ) {
            1
        } else {
            0
        };
        let mut segments = copy_segments(&self.segments, 0);
        assert(segments_view(self.segments@).skip(0) =~= segments_view(self.segments@));
        extend_segments(&mut segments, &other.segments, from);
        assert(other@.skip(0) =~= other@);
        assert(well_formed(segments_view(segments@))) by {
            let result = segments_view(segments@);
            let front = self@;
            let back = other@.skip(from as int);
            assert forall|i: int| 0 <= i < result.len() implies valid_segment(
                #[trigger] result[i],
                i,
            ) by {
                if i < front.len() {
                    assert(result[i] == front[i]);
                } else {
                    let j = i - front.len() + from;
                    assert(result[i] == other@[j]);
                    assert(valid_segment(other@[j], j));
                }
            }
        }
        FilePath { segments }
    }

    /// The path without its last component.
    pub fn parent(&self) -> (parent: Option<FilePath>)
        ensures
            option_view(parent) == parent_of(self@),
    {
        let count = self.segments.len();
        if count == 0 || is_root_bytes(self.segments[count - 1].as_slice()) {
            return None;
        }
        proof {
            use_type_invariant(self);
        }
        let mut segments = copy_segments(&self.segments, 0);
        assert(segments_view(self.segments@).skip(0) =~= segments_view(self.segments@));
        segments.pop();
        assert(segments_view(segments@) =~= self@.drop_last());
        assert(well_formed(segments_view(segments@))) by {
            assert forall|i: int| 0 <= i < segments_view(segments@).len() implies valid_segment(
                #[trigger] segments_view(segments@)[i],
                i,
            ) by {
                assert(valid_segment(self@[i], i));
            }
        }
        Some(FilePath { segments })
    }

    /// The last component, if it names an entry.
    pub fn file_name(&self) -> (name: Option<Vec<u8>>)
        ensures
            bytes_view(name) == file_name_of(self@),
    {
        let count = self.segments.len();
        if count == 0 {
            return None;
        }
        proof {
            use_type_invariant(self);
            assert(valid_segment(self@[count - 1], count - 1));
            assert(root_segment()[0] == SEPARATOR);
            assert(root_segment().contains(SEPARATOR));
        }
        let last = self.segments[count - 1].as_slice();
        if is_special_bytes(last) {
            None
        } else {
            Some(slice_to_vec(last))
        }
    }
}

/// Appends `more` to `text`.
fn append_bytes(text: &mut Vec<u8>, more: &[u8])
    ensures
        final(text)@ == old(text)@ + more@,
{
    let mut i: usize = 0;
    assert(text@ =~= old(text)@ + more@.take(0));
    while i < more.len()
        invariant
            i <= more.len(),
            text@ == old(text)@ + more@.take(i as int),
        decreases more.len() - i,
    {
        text.push(more[i]);
        assert(text@ =~= old(text)@ + more@.take(i + 1));
        i += 1;
    }
    assert(more@.take(i as int) =~= more@);
}

impl FilePath {
    /// The text that writes this path.
    pub fn to_bytes(&self) -> (text: Vec<u8>)
        ensures
            text@ == rendered(self@),
    {
        let mut text: Vec<u8> = Vec::new();
        let mut i: usize = 0;
        assert(self@.take(0) =~= Seq::empty());
        while i < self.segments.len()
            invariant
                i <= self.segments.len(),
                text@ == rendered(self@.take(i as int)),
            decreases self.segments.len() - i,
        {
            proof {
                assert(self@.take(i + 1).drop_last() =~= self@.take(i as int));
                assert(self@.take(i + 1).last() == self@[i as int]);
                assert(self@.take(i + 1)[0] == self@[0]);
            }
            if i > 0 && !(i == 1 && is_root_bytes(self.segments[0].as_slice())) {
                text.push(SEPARATOR);
                assert(text@ =~= rendered(self@.take(i as int)) + seq![SEPARATOR]);
            }
            append_bytes(&mut text, self.segments[i].as_slice());
            i += 1;
        }
        assert(self@.take(i as int) =~= self@);
        text
    }
}

/// The view of a path that may be missing.
pub open spec fn option_view(path: Option<FilePath>) -> Option<Seq<Seq<u8>>> {
    match path {
        Some(path) => Some(path@),
        None => None,
    }
}

/// The bytes of a name that may be missing.
pub open spec fn bytes_view(name: Option<Vec<u8>>) -> Option<Seq<u8>> {
    match name {
        Some(name) => Some(name@),
        None => None,
    }
}

/// There is always a first piece.
pub proof fn lemma_pieces_nonempty(text: Seq<u8>)
    ensures
        pieces(text).len() >= 1,
    decreases text.len(),
{
    if text.len() > 0 {
        lemma_pieces_nonempty(text.drop_last());
    }
}

/// The first piece is empty iff the text is empty or starts with a
/// separator.
pub proof fn lemma_first_piece_empty(text: Seq<u8>)
    ensures
        pieces(text).len() >= 1,
        pieces(text)[0].len() == 0 <==> (text.len() == 0 || text[0] == SEPARATOR),
        pieces(text).len() == 1 ==> pieces(text)[0] == text,
    decreases text.len(),
{
    if text.len() > 0 {
        let shorter = text.drop_last();
        lemma_first_piece_empty(shorter);
        if shorter.len() > 0 {
            assert(shorter[0] == text[0]);
        }
        if pieces(text).len() == 1 {
            assert(pieces(text)[0] =~= text);
        }
    } else {
        assert(pieces(text)[0] =~= text);
    }
}

/// A first piece that is kept is the first of the kept pieces.
pub proof fn lemma_first_kept(all: Seq<Seq<u8>>)
    requires
        all.len() >= 1,
    ensures
        kept(all[0], 0) ==> kept_pieces(all).len() >= 1 && kept_pieces(all)[0] == all[0],
        all.len() == 1 && !kept(all[0], 0) ==> kept_pieces(all).len() == 0,
    decreases all.len(),
{
    if all.len() == 1 {
        assert(all.drop_last().len() == 0);
        assert(kept_pieces(all.drop_last()) =~= Seq::empty());
    } else {
        lemma_first_kept(all.drop_last());
        assert(all.drop_last()[0] == all[0]);
    }
}

/// No piece holds a separator.
pub proof fn lemma_pieces_hold_no_separator(text: Seq<u8>)
    ensures
        pieces(text).len() >= 1,
        forall|i: int| 0 <= i < pieces(text).len() ==> !(#[trigger] pieces(text)[i]).contains(
            SEPARATOR,
        ),
    decreases text.len(),
{
    if text.len() > 0 {
        let before = pieces(text.drop_last());
        lemma_pieces_hold_no_separator(text.drop_last());
        if text.last() != SEPARATOR {
            let grown = before.last().push(text.last());
            assert forall|k: int| 0 <= k < grown.len() implies grown[k] != SEPARATOR by {
                if k < before.last().len() {
                    assert(before.last()[k] == grown[k]);
                    assert(before.last().contains(grown[k]));
                }
            }
            assert forall|i: int| 0 <= i < pieces(text).len() implies !(#[trigger] pieces(
                text,
            )[i]).contains(SEPARATOR) by {
                if i < before.len() - 1 {
                    assert(pieces(text)[i] == before[i]);
                }
            }
        } else {
            assert forall|i: int| 0 <= i < pieces(text).len() implies !(#[trigger] pieces(
                text,
            )[i]).contains(SEPARATOR) by {
                if i < before.len() {
                    assert(pieces(text)[i] == before[i]);
                }
            }
        }
    }
}

/// What is kept of pieces without separators: nothing empty, and `.` only
/// in front, where it was the first piece.
pub proof fn lemma_kept_pieces_are_components(all: Seq<Seq<u8>>)
    requires
        forall|i: int| 0 <= i < all.len() ==> !(#[trigger] all[i]).contains(SEPARATOR),
    ensures
        forall|m: int|
            0 <= m < kept_pieces(all).len() ==> {
                let piece = #[trigger] kept_pieces(all)[m];
                &&& piece.len() > 0
                &&& !piece.contains(SEPARATOR)
                &&& piece == current_segment() ==> m == 0 && all[0] == current_segment()
            },
    decreases all.len(),
{
    if all.len() > 0 {
        let before = all.drop_last();
        assert forall|i: int| 0 <= i < before.len() implies !(#[trigger] before[i]).contains(
            SEPARATOR,
        ) by {
            assert(before[i] == all[i]);
        }
        lemma_kept_pieces_are_components(before);
        assert forall|m: int| 0 <= m < kept_pieces(all).len() implies {
            let piece = #[trigger] kept_pieces(all)[m];
            &&& piece.len() > 0
            &&& !piece.contains(SEPARATOR)
            &&& piece == current_segment() ==> m == 0 && all[0] == current_segment()
        } by {
            if m < kept_pieces(before).len() {
                assert(kept_pieces(all)[m] == kept_pieces(before)[m]);
                assert(before[0] == all[0]);
            } else {
                assert(kept_pieces(all)[m] == all.last());
                if all.last() == current_segment() {
                    assert(before.len() == 0);
                    assert(kept_pieces(before) =~= Seq::empty());
                }
            }
        }
    }
}

/// Reading any text yields a well-formed path.
pub proof fn lemma_parse_is_well_formed(text: Seq<u8>)
    ensures
        well_formed(parse_text(text)),
{
    let all = pieces(text);
    let components = kept_pieces(all);
    lemma_pieces_hold_no_separator(text);
    lemma_first_piece_empty(text);
    lemma_kept_pieces_are_components(all);
    let path = parse_text(text);
    assert(root_segment()[0] == SEPARATOR);
    assert(root_segment().contains(SEPARATOR));
    assert forall|i: int| 0 <= i < path.len() implies valid_segment(#[trigger] path[i], i) by {
        let rooted = root_part(text).len();
        if i >= rooted {
            let piece = components[i - rooted];
            assert(path[i] == piece);
            assert(piece.len() > 0 && !piece.contains(SEPARATOR));
            if piece == current_segment() {
                assert(i - rooted == 0 && all[0] == current_segment());
                assert(rooted == 0);
            }
        }
    }
}

/// Text that holds no separator is appended to the last piece.
pub proof fn lemma_pieces_of_appended(text: Seq<u8>, more: Seq<u8>)
    requires
        !more.contains(SEPARATOR),
    ensures
        pieces(text).len() >= 1,
        pieces(text + more) == pieces(text).drop_last().push(pieces(text).last() + more),
    decreases more.len(),
{
    lemma_pieces_nonempty(text);
    let all = pieces(text);
    if more.len() == 0 {
        assert(text + more =~= text);
        assert(all.last() + more =~= all.last());
        assert(all.drop_last().push(all.last()) =~= all);
    } else {
        let shorter = more.drop_last();
        let byte = more.last();
        assert(more.contains(byte));
        assert forall|k: int| 0 <= k < shorter.len() implies shorter[k] != SEPARATOR by {
            assert(more[k] == shorter[k]);
            assert(more.contains(shorter[k]));
        }
        lemma_pieces_of_appended(text, shorter);
        assert((text + more).drop_last() =~= text + shorter);
        assert((text + more).last() == byte);
        let before = pieces(text + shorter);
        assert(before.drop_last() =~= all.drop_last());
        assert(before.last().push(byte) =~= all.last() + more);
    }
}

/// The text that writes `path`: its components with a separator between
/// them, and none behind the root.
pub open spec fn rendered(path: Seq<Seq<u8>>) -> Seq<u8>
    decreases path.len(),
{
    if path.len() == 0 {
        Seq::empty()
    } else if path.len() == 1 {
        path[0]
    } else if path.len() == 2 && path[0] == root_segment() {
        rendered(path.drop_last()) + path.last()
    } else {
        rendered(path.drop_last()) + seq![SEPARATOR] + path.last()
    }
}

/// Writing a path and reading the text again gives the path back.
pub proof fn lemma_parse_of_rendered(path: Seq<Seq<u8>>)
    requires
        well_formed(path),
    ensures
        parse_text(rendered(path)) == path,
        path.len() > 0 ==> rendered(path).len() > 0 && (rendered(path)[0] == SEPARATOR
            <==> path[0] == root_segment()),
    decreases path.len(),
{
    assert(root_segment()[0] == SEPARATOR);
    assert(root_segment().contains(SEPARATOR));
    assert(current_segment() =~= seq![DOT]);
    assert(parent_segment() =~= seq![DOT, DOT]);
    let empty = Seq::<u8>::empty();
    let none = Seq::<Seq<u8>>::empty();
    if path.len() == 0 {
        assert(pieces(empty) =~= none.push(empty));
        lemma_kept_pieces_push(none, empty);
        assert(parse_text(empty) =~= path);
    } else if path.len() == 1 {
        let only = path[0];
        assert(valid_segment(only, 0));
        if only == root_segment() {
            lemma_pieces_of_root();
            assert(parse_text(only) =~= path);
        } else {
            lemma_segment_holds_no_separator(only);
            lemma_pieces_of_appended(empty, only);
            assert(empty + only =~= only);
            assert(pieces(empty) =~= seq![empty]);
            assert(pieces(only) =~= none.push(only));
            lemma_kept_pieces_push(none, only);
            assert(only[0] != SEPARATOR) by {
                assert(only.contains(only[0]));
            }
            assert(parse_text(only) =~= path);
        }
    } else {
        let before = path.drop_last();
        let last = path.last();
        assert(valid_segment(path[path.len() - 1], path.len() - 1));
        lemma_segment_holds_no_separator(last);
        assert(well_formed(before)) by {
            assert forall|i: int| 0 <= i < before.len() implies valid_segment(
                #[trigger] before[i],
                i,
            ) by {
                assert(valid_segment(path[i], i));
            }
        }
        lemma_parse_of_rendered(before);
        let text = rendered(before);
        assert(before[0] == path[0]);
        if path.len() == 2 && path[0] == root_segment() {
            lemma_pieces_of_root();
            assert(text == root_segment());
            lemma_pieces_of_appended(text, last);
            assert(empty + last =~= last);
            let all = pieces(text + last);
            assert(all =~= none.push(empty).push(last));
            lemma_kept_pieces_push(none, empty);
            lemma_kept_pieces_push(none.push(empty), last);
            assert(kept_pieces(all) =~= seq![last]);
            assert((text + last)[0] == SEPARATOR);
            assert(parse_text(text + last) =~= path);
        } else {
            let ended = text + seq![SEPARATOR];
            assert(ended.drop_last() =~= text);
            assert(pieces(ended) == pieces(text).push(empty));
            lemma_pieces_of_appended(ended, last);
            lemma_pieces_nonempty(text);
            assert(empty + last =~= last);
            let all = pieces(ended + last);
            assert(all =~= pieces(text).push(last));
            lemma_kept_pieces_push(pieces(text), last);
            assert(kept_pieces(all) == kept_pieces(pieces(text)).push(last));
            assert((ended + last)[0] == text[0]);
            assert(root_part(ended + last) == root_part(text));
            assert(parse_text(ended + last) =~= parse_text(text).push(last));
            assert(before.push(last) =~= path);
        }
    }
}

/// What is kept of pieces with one more piece behind them.
proof fn lemma_kept_pieces_push(all: Seq<Seq<u8>>, piece: Seq<u8>)
    ensures
        kept_pieces(all.push(piece)) == if kept(piece, all.len() as int) {
            kept_pieces(all).push(piece)
        } else {
            kept_pieces(all)
        },
        kept_pieces(Seq::<Seq<u8>>::empty()) == Seq::<Seq<u8>>::empty(),
{
    assert(all.push(piece).drop_last() =~= all);
}

/// The pieces of the text `/`: two empty ones, of which none is kept.
proof fn lemma_pieces_of_root()
    ensures
        pieces(root_segment()) == seq![Seq::<u8>::empty(), Seq::<u8>::empty()],
        kept_pieces(pieces(root_segment())) == Seq::<Seq<u8>>::empty(),
{
    let empty = Seq::<u8>::empty();
    let none = Seq::<Seq<u8>>::empty();
    assert(root_segment().drop_last() =~= empty);
    assert(pieces(empty) =~= seq![empty]);
    let all = pieces(root_segment());
    assert(all =~= none.push(empty).push(empty));
    lemma_kept_pieces_push(none, empty);
    lemma_kept_pieces_push(none.push(empty), empty);
}

/// A component other than the root holds no separator and is not empty.
proof fn lemma_segment_holds_no_separator(segment: Seq<u8>)
    requires
        is_name(segment) || segment == parent_segment() || segment == current_segment(),
    ensures
        !segment.contains(SEPARATOR),
        segment.len() > 0,
{
    assert(current_segment() =~= seq![DOT]);
    assert(parent_segment() =~= seq![DOT, DOT]);
}

/// The view of a vector with one more component.
proof fn lemma_view_push(segments: Seq<Vec<u8>>, segment: Vec<u8>)
    ensures
        segments_view(segments.push(segment)) == segments_view(segments).push(segment@),
{
    assert(segments_view(segments.push(segment)) =~= segments_view(segments).push(segment@));
}

/// Pushing a kept piece behind the components read so far keeps them
/// well-formed and reads one piece more.
proof fn lemma_push_kept(done: Seq<Vec<u8>>, current: Vec<u8>, first: bool)
    requires
        well_formed(segments_view(done)),
        !current@.contains(SEPARATOR),
        current@.len() > 0,
        first || current@ != current_segment(),
        first ==> done.len() == 0,
    ensures
        well_formed(segments_view(done.push(current))),
        segments_view(done.push(current)) == segments_view(done).push(current@),
{
    assert(segments_view(done.push(current)) =~= segments_view(done).push(current@));
    assert(root_segment()[0] == SEPARATOR);
    assert(root_segment().contains(SEPARATOR));
    assert(current@ != root_segment());
}

} // verus!
