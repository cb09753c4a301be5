//! The exact set of paths one attempt touched, and the names those paths consist of.

use crate::text;
use vstd::prelude::*;

verus! {

/// What a written path is.
#[derive(Debug, Clone, Copy, PartialEq, Eq, Structural)]
pub enum WrittenKind {
    File,
    Symlink,
}

/// A path the attempt wrote.
#[derive(Debug)]
pub struct Written {
    pub path: Vec<u8>,
    pub kind: WrittenKind,
}

/// A directory the upper layer holds. `redirect` is where the parent snapshot holds its
/// content, for a renamed one; an opaque one inherits nothing.
#[derive(Debug)]
pub struct Directory {
    pub path: Vec<u8>,
    pub redirect: Option<Vec<u8>>,
    pub opaque: bool,
}

/// The paths one attempt touched, directories before what they contain.
#[derive(Debug)]
pub struct ChangeSet {
    pub written: Vec<Written>,
    pub directories: Vec<Directory>,
    pub deleted: Vec<Vec<u8>>,
}

impl ChangeSet {
    pub open spec fn untouched(self) -> bool {
        self.written@.len() == 0 && self.directories@.len() == 0 && self.deleted@.len() == 0
    }

    /// Whether nothing was touched.
    pub fn is_empty(&self) -> (r: bool)
        ensures
            r == self.untouched(),
    {
        self.written.len() == 0 && self.directories.len() == 0 && self.deleted.len() == 0
    }
}

/// Why a path was not usable.
#[derive(Debug, Clone, Copy, PartialEq, Eq, Structural)]
pub enum PathProblem {
    Empty,
    NotRelative,
    ParentSegment,
    NonUtf8,
}

impl PathProblem {
    /// What is wrong with the path.
    pub fn describe(self) -> (r: &'static str)
        ensures
            r@ == (match self {
                PathProblem::Empty => "names no path at all"@,
                PathProblem::NotRelative => "is absolute, and a workspace path is relative to the workspace root"@,
                PathProblem::ParentSegment => "contains a `..` segment, which reaches outside the workspace"@,
                PathProblem::NonUtf8 => "is not valid UTF-8. A tree entry's name is a `String` and this fold NAVIGATES the parent snapshot by name, so the lossy conversion `Cas::ingest`'s walk performs would silently look up a different entry — a deletion or a graft that misses and says nothing"@,
            }),
    {
        match self {
            PathProblem::Empty => "names no path at all",
            PathProblem::NotRelative => "is absolute, and a workspace path is relative to the workspace root",
            PathProblem::ParentSegment => "contains a `..` segment, which reaches outside the workspace",
            PathProblem::NonUtf8 => "is not valid UTF-8. A tree entry's name is a `String` and this fold NAVIGATES the parent snapshot by name, so the lossy conversion `Cas::ingest`'s walk performs would silently look up a different entry — a deletion or a graft that misses and says nothing",
        }
    }
}

/// The pieces of a byte path between its slashes.
pub open spec fn segments(path: Seq<u8>) -> Seq<Seq<u8>>
    decreases path.len(),
{
    if path.len() == 0 {
        seq![Seq::<u8>::empty()]
    } else {
        let rest = segments(path.drop_last());
        if path.last() == 0x2f {
            rest.push(Seq::<u8>::empty())
        } else {
            rest.drop_last().push(rest.last().push(path.last()))
        }
    }
}

/// A segment that names nothing: empty, or the current directory.
pub open spec fn silent_segment(s: Seq<u8>) -> bool {
    s == Seq::<u8>::empty() || s == seq![0x2eu8]
}

pub open spec fn parent_segment(s: Seq<u8>) -> bool {
    s == seq![0x2eu8, 0x2eu8]
}

/// The names that the segments give, or the problem with the first bad one.
pub open spec fn names_of(segs: Seq<Seq<u8>>) -> Result<Seq<Seq<char>>, PathProblem>
    decreases segs.len(),
{
    if segs.len() == 0 {
        Ok(Seq::<Seq<char>>::empty())
    } else {
        match names_of(segs.drop_last()) {
            Err(p) => Err(p),
            Ok(names) => if silent_segment(segs.last()) {
                Ok(names)
            } else if parent_segment(segs.last()) {
                Err(PathProblem::ParentSegment)
            } else if !vstd::utf8::valid_utf8(segs.last()) {
                Err(PathProblem::NonUtf8)
            } else {
                Ok(names.push(vstd::utf8::decode_utf8(segs.last())))
            },
        }
    }
}

/// The plain names a path consists of, or why it is no plain relative path.
pub open spec fn path_names(path: Seq<u8>) -> Result<Seq<Seq<char>>, PathProblem> {
    if path.len() > 0 && path[0] == 0x2f {
        Err(PathProblem::NotRelative)
    } else {
        match names_of(segments(path)) {
            Err(p) => Err(p),
            Ok(names) => if names.len() == 0 {
                Err(PathProblem::Empty)
            } else {
                Ok(names)
            },
        }
    }
}

proof fn segments_nonempty(path: Seq<u8>)
    ensures
        segments(path).len() > 0,
    decreases path.len(),
{
    if path.len() > 0 {
        segments_nonempty(path.drop_last());
    }
}

fn split_segments(path: &Vec<u8>) -> (r: Vec<Vec<u8>>)
    ensures
        text::byte_views(r@) == segments(path@),
{
    let mut out: Vec<Vec<u8>> = Vec::new();
    let mut piece: Vec<u8> = Vec::new();
    let mut i: usize = 0;
    assert(text::byte_views(out@).push(piece@) =~= segments(path@.take(0)));
    while i < path.len()
        invariant
            i <= path@.len(),
            text::byte_views(out@).push(piece@) == segments(path@.take(i as int)),
        decreases path@.len() - i,
    {
        let ghost seen = path@.take(i as int);
        let ghost next = path@.take(i + 1);
        proof {
            segments_nonempty(seen);
            assert(next.drop_last() =~= seen);
            assert(next.last() == path@[i as int]);
            assert(segments(seen).drop_last() =~= text::byte_views(out@));
            assert(segments(seen).last() == piece@);
        }
        let b: u8 = path[i];
        if b == 0x2f {
            let ghost before = out@;
            let ghost last = piece@;
            out.push(piece);
            piece = Vec::new();
            assert(text::byte_views(out@) =~= text::byte_views(before).push(last));
            assert(text::byte_views(out@).push(piece@) =~= segments(next));
        } else {
            piece.push(b);
            assert(text::byte_views(out@).push(piece@) =~= segments(next));
        }
        i = i + 1;
    }
    assert(path@.take(i as int) =~= path@);
    let ghost before = out@;
    let ghost last = piece@;
    out.push(piece);
    assert(text::byte_views(out@) =~= text::byte_views(before).push(last));
    out
}

proof fn bad_prefix_is_bad(segs: Seq<Seq<u8>>, i: int)
    requires
        0 <= i <= segs.len(),
        names_of(segs.take(i)) is Err,
    ensures
        names_of(segs) == names_of(segs.take(i)),
    decreases segs.len(),
{
    if i == segs.len() {
        assert(segs.take(i) =~= segs);
    } else {
        assert(segs.drop_last().take(i) =~= segs.take(i));
        bad_prefix_is_bad(segs.drop_last(), i);
    }
}

pub open spec fn names_result(r: Result<Vec<String>, PathProblem>) -> Result<Seq<Seq<char>>, PathProblem> {
    match r {
        Ok(v) => Ok(text::views(v@)),
        Err(p) => Err(p),
    }
}

/// A path split into the plain names it must consist of.
pub fn components(path: &Vec<u8>) -> (r: Result<Vec<String>, PathProblem>)
    ensures
        names_result(r) == path_names(path@),
{
    if path.len() > 0 && path[0] == 0x2f {
        return Err(PathProblem::NotRelative);
    }
    let segs = split_segments(path);
    let ghost all = segments(path@);
    let mut names: Vec<String> = Vec::new();
    let mut i: usize = 0;
    assert(text::views(names@) =~= Seq::<Seq<char>>::empty());
    while i < segs.len()
        invariant
            all == text::byte_views(segs@),
            all == segments(path@),
            !(path@.len() > 0 && path@[0] == 0x2f),
            i <= segs@.len(),
            names_of(all.take(i as int)) == Ok::<Seq<Seq<char>>, PathProblem>(text::views(names@)),
        decreases segs@.len() - i,
    {
        let ghost next = all.take(i + 1);
        assert(next.drop_last() =~= all.take(i as int));
        assert(next.last() == segs@[i as int]@);
        let seg = &segs[i];
        let dots: bool = seg.len() == 2 && seg[0] == 0x2e && seg[1] == 0x2e;
        let silent: bool = seg.len() == 0 || (seg.len() == 1 && seg[0] == 0x2e);
        proof {
            if silent {
                assert(seg@ =~= Seq::<u8>::empty() || seg@ =~= seq![0x2eu8]);
            }
            if dots {
                assert(seg@ =~= seq![0x2eu8, 0x2eu8]);
            }
            assert(silent == silent_segment(seg@));
            assert(dots == parent_segment(seg@));
        }
        if dots {
            proof {
                bad_prefix_is_bad(all, i + 1);
            }
            return Err(PathProblem::ParentSegment);
        }
        if !silent {
            match text::utf8_text(copy_bytes(seg)) {
                None => {
                    proof {
                        bad_prefix_is_bad(all, i + 1);
                    }
                    return Err(PathProblem::NonUtf8);
                },
                Some(name) => {
                    let ghost before = names@;
                    names.push(name);
                    assert(text::views(names@) =~= text::views(before).push(name@));
                },
            }
        }
        i = i + 1;
    }
    assert(all.take(i as int) =~= all);
    if names.len() == 0 {
        return Err(PathProblem::Empty);
    }
    Ok(names)
}

/// A copy of some bytes.
pub fn copy_bytes(b: &Vec<u8>) -> (r: Vec<u8>)
    ensures
        r@ == b@,
{
    let r = b.clone();
    assert(r@ =~= b@);
    r
}

proof fn names_stay_inside(segs: Seq<Seq<u8>>)
    ensures
        names_of(segs) matches Ok(names) ==> forall|i: int| 0 <= i < names.len() ==> plain_name(#[trigger] names[i]),
    decreases segs.len(),
{
    if segs.len() > 0 {
        names_stay_inside(segs.drop_last());
        let s = segs.last();
        if vstd::utf8::valid_utf8(s) && !silent_segment(s) && !parent_segment(s) {
            vstd::utf8::decode_utf8_encode_utf8(s);
            let name = vstd::utf8::decode_utf8(s);
            assert(plain_name(name)) by {
                if name == seq!['.', '.'] {
                    vstd::utf8::is_ascii_chars_encode_utf8(name);
                    assert(s =~= seq![0x2eu8, 0x2eu8]);
                }
                if name.len() == 0 {
                    assert(vstd::utf8::encode_utf8(name) =~= Seq::<u8>::empty());
                }
                if name == seq!['.'] {
                    vstd::utf8::is_ascii_chars_encode_utf8(name);
                    assert(s =~= seq![0x2eu8]);
                }
            }
        }
    }
}

/// A name that stays where it is: not empty, neither `.` nor `..`.
pub open spec fn plain_name(s: Seq<char>) -> bool {
    s.len() > 0 && s != seq!['.'] && s != seq!['.', '.']
}

/// An accepted path never leaves the directory it is taken from: it is relative and every name
/// in it is a plain one.
pub proof fn accepted_paths_stay_inside(path: Seq<u8>)
    ensures
        path_names(path) matches Ok(names) ==> names.len() > 0 && path.len() > 0 && path[0] != 0x2f && forall|i: int|
            0 <= i < names.len() ==> plain_name(#[trigger] names[i]),
{
    names_stay_inside(segments(path));
    if path.len() == 0 {
        reveal_with_fuel(names_of, 2);
        assert(segments(path).drop_last() =~= Seq::<Seq<u8>>::empty());
        assert(segments(path).last() =~= Seq::<u8>::empty());
    }
}

/// A path without a slash is one piece, and a slash stands between the pieces of what is before it
/// and of what is behind it.
pub proof fn slashes_part_the_pieces(a: Seq<u8>, b: Seq<u8>)
    ensures
        (forall|i: int| 0 <= i < a.len() ==> a[i] != 0x2f) ==> segments(a) == seq![a],
        segments(a + seq![0x2fu8] + b) == segments(a) + segments(b),
    decreases a.len() + b.len(),
{
    segments_nonempty(a);
    segments_nonempty(b);
    if forall|i: int| 0 <= i < a.len() ==> a[i] != 0x2f {
        if a.len() == 0 {
            assert(a =~= Seq::<u8>::empty());
            assert(segments(a) =~= seq![a]);
        } else {
            let rest = a.drop_last();
            assert forall|i: int| 0 <= i < rest.len() implies rest[i] != 0x2f by {
                assert(rest[i] == a[i]);
            }
            slashes_part_the_pieces(rest, Seq::empty());
            assert(rest.push(a.last()) =~= a);
            assert(a[a.len() - 1] != 0x2f);
            assert(segments(rest) == seq![rest]);
            assert(segments(rest).drop_last() =~= Seq::<Seq<u8>>::empty());
            assert(segments(rest).last() == rest);
            assert(segments(a) =~= seq![a]);
        }
    }
    let all = a + seq![0x2fu8] + b;
    if b.len() == 0 {
        assert(all.drop_last() =~= a);
        assert(all.last() == 0x2f);
        assert(segments(all) =~= segments(a) + segments(b));
    } else {
        let rest = b.drop_last();
        segments_nonempty(rest);
        slashes_part_the_pieces(a, rest);
        assert(all.drop_last() =~= a + seq![0x2fu8] + rest);
        assert(all.last() == b.last());
        assert(segments(all) =~= segments(a) + segments(b));
    }
}

/// The names of a path are its pieces in order: an empty piece and a `.` name nothing, a `..` and
/// a piece that is no text spoil the path, and the first of those says why.
pub proof fn pieces_are_names(first: Seq<Seq<u8>>, more: Seq<Seq<u8>>, piece: Seq<u8>)
    ensures
        names_of(seq![piece]) == (if piece.len() == 0 || piece == seq![0x2eu8] {
            Ok(Seq::empty())
        } else if piece == seq![0x2eu8, 0x2eu8] {
            Err(PathProblem::ParentSegment)
        } else if !vstd::utf8::valid_utf8(piece) {
            Err(PathProblem::NonUtf8)
        } else {
            Ok(seq![vstd::utf8::decode_utf8(piece)])
        }),
        names_of(first) is Err ==> names_of(first + more) == names_of(first),
        names_of(first) is Ok && names_of(more) is Err ==> names_of(first + more) == names_of(more),
        names_of(first) is Ok && names_of(more) is Ok ==> names_of(first + more) == Ok::<Seq<Seq<char>>, PathProblem>(
            names_of(first)->Ok_0 + names_of(more)->Ok_0,
        ),
    decreases more.len(),
{
    reveal_with_fuel(names_of, 2);
    assert(seq![piece].drop_last() =~= Seq::<Seq<u8>>::empty());
    assert(piece.len() == 0 ==> piece =~= Seq::<u8>::empty());
    assert(Seq::<Seq<char>>::empty().push(vstd::utf8::decode_utf8(piece)) =~= seq![vstd::utf8::decode_utf8(piece)]);
    if more.len() == 0 {
        assert(first + more =~= first);
        if names_of(first) is Ok {
            assert(names_of(first)->Ok_0 + Seq::<Seq<char>>::empty() =~= names_of(first)->Ok_0);
        }
    } else {
        let rest = more.drop_last();
        pieces_are_names(first, rest, piece);
        assert((first + more).drop_last() =~= first + rest);
        assert((first + more).last() == more.last());
        if names_of(first) is Ok && names_of(rest) is Ok {
            let a = names_of(first)->Ok_0;
            let b = names_of(rest)->Ok_0;
            let n = vstd::utf8::decode_utf8(more.last());
            assert(a + b.push(n) =~= (a + b).push(n));
        }
    }
}

/// A path is accepted exactly where it is relative, none of its pieces spoils it, and one of them
/// is a name.
pub proof fn paths_are_refused_for_a_reason(path: Seq<u8>)
    ensures
        path.len() > 0 && path[0] == 0x2f <==> path_names(path) == Err::<Seq<Seq<char>>, PathProblem>(
            PathProblem::NotRelative,
        ),
        path.len() > 0 && path[0] != 0x2f && names_of(segments(path)) is Err ==> path_names(path) == names_of(segments(path)),
        path.len() > 0 && path[0] != 0x2f && names_of(segments(path)) is Ok ==> {
            let names = names_of(segments(path))->Ok_0;
            path_names(path) == if names.len() > 0 {
                Ok(names)
            } else {
                Err(PathProblem::Empty)
            }
        },
{
    if path.len() == 0 {
        reveal_with_fuel(names_of, 2);
        assert(segments(path).drop_last() =~= Seq::<Seq<u8>>::empty());
        assert(segments(path).last() =~= Seq::<u8>::empty());
    }
    no_piece_makes_a_path_absolute(segments(path));
}

proof fn no_piece_makes_a_path_absolute(segs: Seq<Seq<u8>>)
    ensures
        names_of(segs) matches Err(p) ==> p is ParentSegment || p is NonUtf8,
    decreases segs.len(),
{
    if segs.len() > 0 {
        no_piece_makes_a_path_absolute(segs.drop_last());
    }
}

} // verus!
