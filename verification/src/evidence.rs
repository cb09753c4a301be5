//! What a step left behind: artifacts, results, and the snapshot of its workspace.

use crate::errors::{ApiError, ApiErrorView};
use crate::json::{self, Json};
use crate::mark::{TargetView, TreeTarget};
use crate::overlay::{self, KnownTrees, TreeEntry, Trees};
use crate::sort::{self, Ranked};
use crate::text;
use vstd::prelude::*;

verus! {

/// One version of an artifact, as the store keeps it.
#[derive(Debug)]
pub struct ArtifactRecord {
    pub name: String,
    pub size: u64,
    pub content_type: String,
    pub object_key: String,
    pub step: String,
    pub attempt: String,
    pub succeeded: bool,
}

/// One version of an artifact, as a run's page lists it.
#[derive(Debug)]
pub struct ArtifactDto {
    pub name: String,
    pub size: u64,
    pub content_type: String,
    pub step: String,
    pub attempt: String,
    pub succeeded: bool,
    pub of_record: bool,
}

/// A selector of one version of an artifact.
#[derive(Debug)]
pub struct ArtifactVersionQuery {
    pub step: Option<String>,
    pub attempt: Option<String>,
}

/// The version of record of a name: its last successful one.
pub open spec fn of_record(artifacts: Seq<ArtifactRecord>, name: Seq<char>) -> Option<int>
    decreases artifacts.len(),
{
    if artifacts.len() == 0 {
        None
    } else if artifacts.last().succeeded && artifacts.last().name@ == name {
        Some(artifacts.len() - 1)
    } else {
        of_record(artifacts.drop_last(), name)
    }
}

/// A download by bare name never yields a failed attempt's file: the version of record, where
/// there is one, is a successful version of that name, and no later version of it succeeded.
pub proof fn the_version_of_record_succeeded(artifacts: Seq<ArtifactRecord>, name: Seq<char>)
    ensures
        match of_record(artifacts, name) {
            Some(i) => 0 <= i < artifacts.len() && artifacts[i].succeeded && artifacts[i].name@ == name && forall|j: int|
                i < j < artifacts.len() ==> !((#[trigger] artifacts[j]).succeeded && artifacts[j].name@ == name),
            None => forall|j: int|
                0 <= j < artifacts.len() ==> !((#[trigger] artifacts[j]).succeeded && artifacts[j].name@ == name),
        },
    decreases artifacts.len(),
{
    if artifacts.len() > 0 {
        let rest = artifacts.drop_last();
        the_version_of_record_succeeded(rest, name);
        assert(artifacts.last() == artifacts[artifacts.len() - 1]);
        assert(forall|j: int| 0 <= j < rest.len() ==> #[trigger] artifacts[j] == rest[j]);
    }
}

/// The index of the version of record of a name.
pub fn of_record_index(artifacts: &Vec<ArtifactRecord>, name: &str) -> (r: Option<usize>)
    ensures
        match r {
            Some(i) => i < artifacts@.len() && of_record(artifacts@, name@) == Some(i as int),
            None => of_record(artifacts@, name@) is None,
        },
{
    let mut i: usize = artifacts.len();
    assert(artifacts@.take(i as int) =~= artifacts@);
    while i > 0
        invariant
            i <= artifacts@.len(),
            of_record(artifacts@, name@) == of_record(artifacts@.take(i as int), name@),
        decreases i,
    {
        let ghost seen = artifacts@.take(i as int);
        i = i - 1;
        assert(seen.drop_last() =~= artifacts@.take(i as int));
        assert(seen.last() == artifacts@[i as int]);
        if artifacts[i].succeeded && text::str_eq(artifacts[i].name.as_str(), name) {
            return Some(i);
        }
    }
    None
}

pub open spec fn artifact_shown(d: ArtifactDto, a: ArtifactRecord, record: bool) -> bool {
    d.name@ == a.name@ && d.size == a.size && d.content_type@ == a.content_type@ && d.step@ == a.step@ && d.attempt@
        == a.attempt@ && d.succeeded == a.succeeded && d.of_record == record
}

/// The versions of a run's artifacts, each marked where a bare name resolves to it.
pub fn list_artifacts(artifacts: &Vec<ArtifactRecord>) -> (r: Vec<ArtifactDto>)
    ensures
        r@.len() == artifacts@.len(),
        forall|i: int|
            0 <= i < artifacts@.len() ==> artifact_shown(
                #[trigger] r@[i],
                artifacts@[i],
                of_record(artifacts@, artifacts@[i].name@) == Some(i),
            ),
{
    let mut out: Vec<ArtifactDto> = Vec::new();
    let mut i: usize = 0;
    while i < artifacts.len()
        invariant
            i <= artifacts@.len(),
            out@.len() == i,
            forall|j: int|
                0 <= j < i ==> artifact_shown(
                    #[trigger] out@[j],
                    artifacts@[j],
                    of_record(artifacts@, artifacts@[j].name@) == Some(j),
                ),
        decreases artifacts@.len() - i,
    {
        let a = &artifacts[i];
        let record: bool = match of_record_index(artifacts, a.name.as_str()) {
            Some(k) => k == i,
            None => false,
        };
        out.push(
            ArtifactDto {
                name: a.name.clone(),
                size: a.size,
                content_type: a.content_type.clone(),
                step: a.step.clone(),
                attempt: a.attempt.clone(),
                succeeded: a.succeeded,
                of_record: record,
            },
        );
        i = i + 1;
    }
    out
}

/// The version is the one that a selector pins.
pub open spec fn pinned(a: ArtifactRecord, name: Seq<char>, step: Seq<char>, attempt: Seq<char>) -> bool {
    a.name@ == name && a.step@ == step && a.attempt@ == attempt
}

/// The version a download serves: the pinned one where step and attempt are given, else the
/// version of record.
pub fn download_artifact(artifacts: &Vec<ArtifactRecord>, name: &str, version: &ArtifactVersionQuery) -> (r: Result<
    usize,
    ApiError,
>)
    ensures
        match (text::opt_view(version.step), text::opt_view(version.attempt)) {
            (Some(step), Some(attempt)) => match r {
                Ok(i) => i < artifacts@.len() && pinned(artifacts@[i as int], name@, step, attempt) && forall|j: int|
                    0 <= j < i ==> !pinned(#[trigger] artifacts@[j], name@, step, attempt),
                Err(e) => e@ == ApiErrorView::NotFound && forall|j: int|
                    0 <= j < artifacts@.len() ==> !pinned(#[trigger] artifacts@[j], name@, step, attempt),
            },
            _ => match r {
                Ok(i) => i < artifacts@.len() && of_record(artifacts@, name@) == Some(i as int),
                Err(e) => e@ == ApiErrorView::NotFound && of_record(artifacts@, name@) is None,
            },
        },
{
    match (&version.step, &version.attempt) {
        (Some(step), Some(attempt)) => {
            let mut i: usize = 0;
            while i < artifacts.len()
                invariant
                    i <= artifacts@.len(),
                    text::opt_view(version.step) == Some(step@),
                    text::opt_view(version.attempt) == Some(attempt@),
                    forall|j: int| 0 <= j < i ==> !pinned(#[trigger] artifacts@[j], name@, step@, attempt@),
                decreases artifacts@.len() - i,
            {
                let a = &artifacts[i];
                if text::str_eq(a.name.as_str(), name) && a.step == *step && a.attempt == *attempt {
                    return Ok(i);
                }
                i = i + 1;
            }
            Err(ApiError::NotFound)
        },
        _ => match of_record_index(artifacts, name) {
            Some(i) => Ok(i),
            None => Err(ApiError::NotFound),
        },
    }
}

/// A selector of one attempt's evidence.
#[derive(Debug)]
pub struct AttemptQuery {
    pub attempt: Option<String>,
}

/// One result of a step, with the coarse kind of its value.
#[derive(Debug)]
pub struct StepResultDto {
    pub name: String,
    pub value: Json,
    pub kind_name: String,
}

/// A step's results as its page lists them.
pub fn get_step_results(results: Vec<(String, Json)>) -> (r: Vec<StepResultDto>)
    ensures
        r@.len() == results@.len(),
        forall|i: int|
            0 <= i < results@.len() ==> (#[trigger] r@[i]).name == results@[i].0 && r@[i].value == results@[i].1
                && r@[i].kind_name@ == json::kind_name(results@[i].1@),
{
    let mut out: Vec<StepResultDto> = Vec::new();
    for p in it: results
        invariant
            it.seq() == results@,
            out@.len() == it.index(),
            forall|i: int|
                0 <= i < it.index() ==> (#[trigger] out@[i]).name == results@[i].0 && out@[i].value == results@[i].1
                    && out@[i].kind_name@ == json::kind_name(results@[i].1@),
    {
        let (name, value) = p;
        let kind_name = json::json_type_name(&value).to_owned();
        out.push(StepResultDto { name, value, kind_name });
    }
    out
}

/// What an attempt built on: the attempt of each upstream step.
#[derive(Debug)]
pub struct ConsumedDto {
    pub attempt: String,
    pub consumed: Vec<(String, String)>,
}

/// The attempt that a consumption map is read for: the requested one, or the one behind the
/// step's current evidence.
pub fn consumed_attempt(q: AttemptQuery, evidence: Option<String>) -> (r: Result<String, ApiError>)
    ensures
        match q.attempt {
            Some(a) => r == Ok::<String, ApiError>(a),
            None => match evidence {
                Some(a) => r == Ok::<String, ApiError>(a),
                None => r matches Err(e) && e@ == ApiErrorView::NotFound,
            },
        },
{
    match q.attempt {
        Some(a) => Ok(a),
        None => match evidence {
            Some(a) => Ok(a),
            None => Err(ApiError::NotFound),
        },
    }
}

/// The names of a browse path: its pieces without the empty ones, or none where a piece is `.` or
/// `..`.
pub open spec fn clean_segments(pieces: Seq<Seq<char>>) -> Option<Seq<Seq<char>>>
    decreases pieces.len(),
{
    if pieces.len() == 0 {
        Some(Seq::empty())
    } else {
        match clean_segments(pieces.drop_last()) {
            None => None,
            Some(segs) => if pieces.last().len() == 0 {
                Some(segs)
            } else if pieces.last() == "."@ || pieces.last() == ".."@ {
                None
            } else {
                Some(segs.push(pieces.last()))
            },
        }
    }
}

proof fn bad_piece_spoils_the_path(pieces: Seq<Seq<char>>, i: int)
    requires
        0 <= i <= pieces.len(),
        clean_segments(pieces.take(i)) is None,
    ensures
        clean_segments(pieces) is None,
    decreases pieces.len(),
{
    if i == pieces.len() {
        assert(pieces.take(i) =~= pieces);
    } else {
        assert(pieces.drop_last().take(i) =~= pieces.take(i));
        bad_piece_spoils_the_path(pieces.drop_last(), i);
    }
}

/// Splits a browse path into names; a path with a `.` or `..` in it names nothing.
pub fn workspace_segments(path: &str) -> (r: Result<Vec<String>, ApiError>)
    ensures
        match r {
            Ok(v) => clean_segments(text::split(path@, '/')) == Some(text::views(v@)),
            Err(e) => clean_segments(text::split(path@, '/')) is None && e@ == ApiErrorView::NotFound,
        },
{
    let pieces = text::split_char(path, '/');
    let ghost all = text::views(pieces@);
    let mut segs: Vec<String> = Vec::new();
    let mut i: usize = 0;
    assert(text::views(segs@) =~= Seq::<Seq<char>>::empty());
    while i < pieces.len()
        invariant
            i <= pieces@.len(),
            all == text::views(pieces@),
            all == text::split(path@, '/'),
            clean_segments(all.take(i as int)) == Some(text::views(segs@)),
        decreases pieces@.len() - i,
    {
        let ghost before = text::views(segs@);
        let p = &pieces[i];
        assert(all.take(i + 1).drop_last() =~= all.take(i as int));
        assert(all.take(i + 1).last() == p@);
        if p.as_str().unicode_len() == 0 {
        } else if text::str_eq(p.as_str(), ".") || text::str_eq(p.as_str(), "..") {
            proof {
                bad_piece_spoils_the_path(all, i + 1);
            }
            return Err(ApiError::NotFound);
        } else {
            segs.push(p.clone());
            assert(text::views(segs@) =~= before.push(p@));
        }
        i = i + 1;
    }
    assert(all.take(i as int) =~= all);
    Ok(segs)
}

/// A browse path never leaves the snapshot: none of its names is empty, `.` or `..`.
pub proof fn browse_paths_stay_inside(pieces: Seq<Seq<char>>)
    ensures
        clean_segments(pieces) matches Some(segs) ==> forall|i: int|
            0 <= i < segs.len() ==> (#[trigger] segs[i]).len() > 0 && segs[i] != "."@ && segs[i] != ".."@,
    decreases pieces.len(),
{
    if pieces.len() > 0 {
        browse_paths_stay_inside(pieces.drop_last());
    }
}

/// Where a walk through a snapshot ends.
pub enum WalkView {
    Target(TargetView),
    Need(Seq<char>),
    NotFound,
}

/// Where names lead from a target: a name leads on from a directory only.
pub open spec fn walk(known: Trees, at: TargetView, names: Seq<Seq<char>>) -> WalkView
    decreases names.len(),
{
    if names.len() == 0 {
        WalkView::Target(at)
    } else {
        match at {
            TargetView::Blob(_) => WalkView::NotFound,
            TargetView::Tree(h) => if !known.dom().contains(h) {
                WalkView::Need(h)
            } else {
                match overlay::entry_named(known[h], names[0]) {
                    None => WalkView::NotFound,
                    Some(e) => walk(known, e.target, names.drop_first()),
                }
            },
        }
    }
}

/// Where a walk through a snapshot ended: at a target, at a tree that is to be read first, or
/// nowhere.
#[derive(Debug)]
pub enum Walk {
    Target(TreeTarget),
    Need(String),
    NotFound,
}

impl View for Walk {
    type V = WalkView;

    open spec fn view(&self) -> WalkView {
        match self {
            Walk::Target(t) => WalkView::Target(t@),
            Walk::Need(h) => WalkView::Need(h@),
            Walk::NotFound => WalkView::NotFound,
        }
    }
}

/// Walks names down from a snapshot's root.
pub fn workspace_walk(known: &KnownTrees, root: &String, segments: &Vec<String>) -> (r: Walk)
    ensures
        r@ == walk(known@, TargetView::Tree(root@), text::views(segments@)),
{
    let ghost all = text::views(segments@);
    let mut at = TreeTarget::Tree(root.clone());
    let mut i: usize = 0;
    assert(all.skip(0) =~= all);
    while i < segments.len()
        invariant
            i <= segments@.len(),
            all == text::views(segments@),
            walk(known@, TargetView::Tree(root@), all) == walk(known@, at@, all.skip(i as int)),
        decreases segments@.len() - i,
    {
        let ghost rest = all.skip(i as int);
        assert(rest[0] == segments@[i as int]@);
        assert(rest.drop_first() =~= all.skip(i + 1));
        let tree = match at {
            TreeTarget::Blob(_) => {
                return Walk::NotFound;
            },
            TreeTarget::Tree(h) => h,
        };
        let entries = match known.get(&tree) {
            None => {
                return Walk::Need(tree);
            },
            Some(entries) => entries,
        };
        match overlay::find_entry(entries, &segments[i]) {
            None => {
                return Walk::NotFound;
            },
            Some(k) => {
                at = match &entries[k].target {
                    TreeTarget::Tree(h) => TreeTarget::Tree(h.clone()),
                    TreeTarget::Blob(h) => TreeTarget::Blob(h.clone()),
                };
            },
        }
        i = i + 1;
    }
    assert(all.skip(i as int) =~= Seq::<Seq<char>>::empty());
    Walk::Target(at)
}

/// What a browse path leads to in a snapshot.
#[derive(Debug)]
pub enum Browse {
    /// A file or directory of the kind that was asked for, by its hash.
    Found(String),
    /// A tree that is to be read first.
    Need(String),
    Refused(ApiError),
}

/// What a browse path leads to; `file` says whether a file or a directory is asked for. Whatever
/// is of the other kind, is not there or leads upwards is not found.
pub open spec fn browsed(known: Trees, root: Seq<char>, path: Seq<char>, file: bool, r: Browse) -> bool {
    match clean_segments(text::split(path, '/')) {
        None => r matches Browse::Refused(e) && e@ == ApiErrorView::NotFound,
        Some(names) => match walk(known, TargetView::Tree(root), names) {
            WalkView::Need(h) => r matches Browse::Need(x) && x@ == h,
            WalkView::Target(TargetView::Blob(h)) if file => r matches Browse::Found(x) && x@ == h,
            WalkView::Target(TargetView::Tree(h)) if !file => r matches Browse::Found(x) && x@ == h,
            _ => r matches Browse::Refused(e) && e@ == ApiErrorView::NotFound,
        },
    }
}

fn browse(known: &KnownTrees, root: &String, path: &str, file: bool) -> (r: Browse)
    ensures
        browsed(known@, root@, path@, file, r),
{
    let segments = match workspace_segments(path) {
        Ok(v) => v,
        Err(e) => {
            return Browse::Refused(e);
        },
    };
    match workspace_walk(known, root, &segments) {
        Walk::Need(h) => Browse::Need(h),
        Walk::Target(TreeTarget::Blob(h)) => if file {
            Browse::Found(h)
        } else {
            Browse::Refused(ApiError::NotFound)
        },
        Walk::Target(TreeTarget::Tree(h)) => if file {
            Browse::Refused(ApiError::NotFound)
        } else {
            Browse::Found(h)
        },
        Walk::NotFound => Browse::Refused(ApiError::NotFound),
    }
}

/// The directory that a browse path names in a snapshot.
pub fn workspace_directory(known: &KnownTrees, root: &String, path: &str) -> (r: Browse)
    ensures
        browsed(known@, root@, path@, false, r),
{
    browse(known, root, path, false)
}

/// The file that a browse path names in a snapshot, where the step left one.
pub fn get_workspace_file(known: &KnownTrees, root: &Option<String>, path: &str) -> (r: Browse)
    ensures
        match root {
            Some(h) => browsed(known@, h@, path@, true, r),
            None => r matches Browse::Refused(e) && e@ == ApiErrorView::NotFound,
        },
{
    match root {
        Some(h) => browse(known, h, path, true),
        None => Browse::Refused(ApiError::NotFound),
    }
}

/// An entry of a directory listing.
#[derive(Debug)]
pub struct WorkspaceEntryDto {
    pub name: String,
    pub kind: String,
}

/// A directory listing of a snapshot.
#[derive(Debug)]
pub struct WorkspaceListing {
    pub path: String,
    pub available: bool,
    pub entries: Vec<WorkspaceEntryDto>,
}

impl WorkspaceEntryDto {
    pub open spec fn is_dir(self) -> bool {
        self.kind@ == "dir"@
    }
}

impl Ranked for WorkspaceEntryDto {
    open spec fn ranks_before(&self, other: &Self) -> bool {
        if self.is_dir() == other.is_dir() {
            text::lex_le(self.name@, other.name@)
        } else {
            self.is_dir()
        }
    }

    proof fn rank_total(a: &Self, b: &Self) {
        text::lex_le_total(a.name@, b.name@);
    }

    proof fn rank_transitive(a: &Self, b: &Self, c: &Self) {
        if a.is_dir() == b.is_dir() && b.is_dir() == c.is_dir() {
            text::lex_le_transitive(a.name@, b.name@, c.name@);
        }
    }

    fn may_precede(&self, other: &Self) -> (r: bool) {
        let a: bool = text::str_eq(self.kind.as_str(), "dir");
        let b: bool = text::str_eq(other.kind.as_str(), "dir");
        if a == b {
            text::str_le(self.name.as_str(), other.name.as_str())
        } else {
            a
        }
    }
}

pub open spec fn entry_kind(t: TargetView) -> Seq<char> {
    match t {
        TargetView::Tree(_) => "dir"@,
        TargetView::Blob(_) => "file"@,
    }
}

/// The entries before they are put in order.
pub open spec fn lists(d: Seq<WorkspaceEntryDto>, entries: Seq<TreeEntry>) -> bool {
    d.len() == entries.len() && forall|i: int|
        0 <= i < d.len() ==> (#[trigger] d[i]).name@ == entries[i].name@ && d[i].kind@ == entry_kind(entries[i].target@)
}

/// A directory of a snapshot: its subdirectories first, each group by name. `None` is a step
/// without a snapshot.
pub fn list_workspace(path: String, entries: Option<&Vec<TreeEntry>>) -> (r: WorkspaceListing)
    ensures
        r.path == path,
        r.available == (entries is Some),
        match entries {
            None => r.entries@.len() == 0,
            Some(v) => exists|d: Seq<WorkspaceEntryDto>| #[trigger] lists(d, v@) && r.entries@ == sort::sorted(d),
        },
{
    match entries {
        None => WorkspaceListing { path, available: false, entries: Vec::new() },
        Some(v) => {
            let mut out: Vec<WorkspaceEntryDto> = Vec::new();
            let mut i: usize = 0;
            while i < v.len()
                invariant
                    i <= v@.len(),
                    out@.len() == i,
                    forall|j: int|
                        0 <= j < i ==> (#[trigger] out@[j]).name@ == v@[j].name@ && out@[j].kind@ == entry_kind(
                            v@[j].target@,
                        ),
                decreases v@.len() - i,
            {
                let kind: &'static str = match &v[i].target {
                    TreeTarget::Tree(_) => "dir",
                    TreeTarget::Blob(_) => "file",
                };
                out.push(WorkspaceEntryDto { name: v[i].name.clone(), kind: kind.to_owned() });
                i = i + 1;
            }
            assert(lists(out@, v@));
            WorkspaceListing { path, available: true, entries: sort::sort(out) }
        },
    }
}

/// The content type a file is served with: text where it is UTF-8.
pub fn file_content_type(bytes: &Vec<u8>) -> (r: &'static str)
    ensures
        r@ == (if vstd::utf8::valid_utf8(bytes@) {
            "text/plain; charset=utf-8"@
        } else {
            "application/octet-stream"@
        }),
{
    let copy = bytes.clone();
    assert(copy@ =~= bytes@);
    match text::utf8_text(copy) {
        Some(_) => "text/plain; charset=utf-8",
        None => "application/octet-stream",
    }
}

/// A listed version says what is stored of it, and that it is of record exactly where a bare name
/// resolves to it.
pub proof fn artifacts_are_listed_as_they_are(d: ArtifactDto, a: ArtifactRecord, record: bool)
    requires
        artifact_shown(d, a, record),
    ensures
        d.name@ == a.name@ && d.size == a.size && d.content_type@ == a.content_type@,
        d.step@ == a.step@ && d.attempt@ == a.attempt@ && d.succeeded == a.succeeded,
        d.of_record <==> record,
{
}

/// A selector pins the version of that name, step and attempt and no other.
pub proof fn selectors_pin_one_version(a: ArtifactRecord, name: Seq<char>, step: Seq<char>, attempt: Seq<char>)
    ensures
        pinned(a, a.name@, a.step@, a.attempt@),
        pinned(a, name, step, attempt) ==> name == a.name@ && step == a.step@ && attempt == a.attempt@,
{
}

/// The names of a browse path are its pieces in their order, without the empty ones: two parts of
/// a path name what each names, and a part that leads upwards spoils the path.
pub proof fn browse_paths_keep_their_names(first: Seq<Seq<char>>, more: Seq<Seq<char>>, piece: Seq<char>)
    ensures
        clean_segments(Seq::empty()) == Some(Seq::<Seq<char>>::empty()),
        clean_segments(seq![piece]) == (if piece.len() == 0 {
            Some(Seq::empty())
        } else if piece == "."@ || piece == ".."@ {
            None
        } else {
            Some(seq![piece])
        }),
        clean_segments(first) is None || clean_segments(more) is None ==> clean_segments(first + more) is None,
        clean_segments(first) is Some && clean_segments(more) is Some ==> clean_segments(first + more) == Some(
            clean_segments(first)->0 + clean_segments(more)->0,
        ),
    decreases more.len(),
{
    reveal_with_fuel(clean_segments, 2);
    assert(seq![piece].drop_last() =~= Seq::<Seq<char>>::empty());
    assert(Seq::<Seq<char>>::empty().push(piece) =~= seq![piece]);
    if more.len() == 0 {
        assert(first + more =~= first);
        if clean_segments(first) is Some {
            assert(clean_segments(first)->0 + Seq::<Seq<char>>::empty() =~= clean_segments(first)->0);
        }
    } else {
        let rest = more.drop_last();
        browse_paths_keep_their_names(first, rest, piece);
        assert((first + more).drop_last() =~= first + rest);
        assert((first + more).last() == more.last());
        if clean_segments(first) is Some && clean_segments(rest) is Some {
            let a = clean_segments(first)->0;
            let b = clean_segments(rest)->0;
            assert(a + b.push(more.last()) =~= (a + b).push(more.last()));
        }
    }
}

/// A path leads on from where its beginning led to, and nowhere where the beginning leads nowhere.
pub proof fn walks_go_on_from_where_they_came(known: Trees, at: TargetView, first: Seq<Seq<char>>, more: Seq<Seq<char>>)
    ensures
        walk(known, at, first + more) == match walk(known, at, first) {
            WalkView::Target(t) => walk(known, t, more),
            other => other,
        },
    decreases first.len(),
{
    if first.len() == 0 {
        assert(first + more =~= more);
    } else {
        assert((first + more)[0] == first[0]);
        assert((first + more).drop_first() =~= first.drop_first() + more);
        if let TargetView::Tree(h) = at {
            if known.dom().contains(h) {
                if let Some(e) = overlay::entry_named(known[h], first[0]) {
                    walks_go_on_from_where_they_came(known, e.target, first.drop_first(), more);
                }
            }
        }
    }
}

/// One name leads from a directory to the entry of that name. A directory that was not read yet
/// is to be read first, and a file leads nowhere.
pub proof fn names_lead_to_their_entries(known: Trees, tree: Seq<char>, file: Seq<char>, name: Seq<char>)
    ensures
        walk(known, TargetView::Tree(tree), Seq::empty()) == WalkView::Target(TargetView::Tree(tree)),
        walk(known, TargetView::Blob(file), seq![name]) is NotFound,
        !known.dom().contains(tree) ==> walk(known, TargetView::Tree(tree), seq![name]) == WalkView::Need(tree),
        known.dom().contains(tree) ==> walk(known, TargetView::Tree(tree), seq![name]) == match overlay::entry_named(
            known[tree],
            name,
        ) {
            Some(e) => WalkView::Target(e.target),
            None => WalkView::NotFound,
        },
{
    reveal_with_fuel(walk, 2);
    assert(seq![name].drop_first() =~= Seq::<Seq<char>>::empty());
}

/// What a browse path leads to is found where it is of the kind asked for; a directory is no file,
/// a file is no directory, and a path that leads upwards finds nothing.
pub proof fn browsing_finds_what_is_there(known: Trees, root: Seq<char>, path: Seq<char>, file: bool, r: Browse)
    requires
        browsed(known, root, path, file, r),
    ensures
        clean_segments(text::split(path, '/')) is None ==> r is Refused,
        clean_segments(text::split(path, '/')) matches Some(names) ==> match walk(known, TargetView::Tree(root), names) {
            WalkView::Need(h) => r is Need && r->Need_0@ == h,
            WalkView::NotFound => r is Refused,
            WalkView::Target(TargetView::Blob(h)) => if file {
                r is Found && r->Found_0@ == h
            } else {
                r is Refused
            },
            WalkView::Target(TargetView::Tree(h)) => if file {
                r is Refused
            } else {
                r is Found && r->Found_0@ == h
            },
        },
        r matches Browse::Refused(e) ==> e@ == ApiErrorView::NotFound,
{
}

/// Directories are listed before files, and each of them by name.
pub proof fn directories_come_first(a: WorkspaceEntryDto, b: WorkspaceEntryDto)
    ensures
        a.kind@ == "dir"@ && b.kind@ == "file"@ ==> a.ranks_before(&b) && !b.ranks_before(&a),
        a.kind@ == b.kind@ ==> (a.ranks_before(&b) <==> text::lex_le(a.name@, b.name@)),
        forall|h: Seq<char>| #[trigger] entry_kind(TargetView::Tree(h)) == "dir"@,
        forall|h: Seq<char>| #[trigger] entry_kind(TargetView::Blob(h)) == "file"@,
{
    reveal_strlit("dir");
    reveal_strlit("file");
    assert("dir"@.len() != "file"@.len());
}

} // verus!
