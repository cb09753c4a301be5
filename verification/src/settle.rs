//! Folds what an attempt changed into the parent snapshot: the directory passes, the trees to
//! write, and the inventory an archival flush offers.

use crate::changeset::{self, ChangeSet, Directory, Written, WrittenKind};
use crate::mark::{TargetView, TreeTarget};
use crate::overlay::{self, DirNode, DirView, Edit, EditView, EntryView, KnownTrees, Stop, StopView, TreeEntry, Trees};
use crate::text;
use vstd::prelude::*;

verus! {

/// What one fold cost.
#[derive(Debug, Clone, Copy, PartialEq, Eq, Structural)]
pub struct SettleTally {
    pub blobs_stored: u64,
    pub trees_written: u64,
    pub trees_read: u64,
    pub identities_walked: u64,
    pub grafted: u64,
    pub deleted: u64,
}

impl SettleTally {
    pub open spec fn zero() -> SettleTally {
        SettleTally {
            blobs_stored: 0,
            trees_written: 0,
            trees_read: 0,
            identities_walked: 0,
            grafted: 0,
            deleted: 0,
        }
    }
}

impl Default for SettleTally {
    fn default() -> (r: SettleTally)
        ensures
            r == SettleTally::zero(),
    {
        SettleTally {
            blobs_stored: 0,
            trees_written: 0,
            trees_read: 0,
            identities_walked: 0,
            grafted: 0,
            deleted: 0,
        }
    }
}

/// A modification time in milliseconds since the epoch, negative before it.
pub open spec fn mtime_of(before_epoch: bool, millis: int) -> Option<i64> {
    if millis > i64::MAX {
        None
    } else if before_epoch {
        Some((-millis) as i64)
    } else {
        Some(millis as i64)
    }
}

/// A modification time counts up from the epoch, and down before it; one that does not fit is left
/// out.
pub proof fn times_before_the_epoch_are_negative(millis: nat)
    ensures
        millis <= i64::MAX ==> mtime_of(false, millis as int) == Some(millis as i64) && (mtime_of(true, millis as int) matches Some(
            t,
        ) && t + millis == 0),
        millis > i64::MAX ==> mtime_of(false, millis as int) is None && mtime_of(true, millis as int) is None,
{
}

/// A modification time in milliseconds since the epoch, where it fits.
pub fn mtime_ms(before_epoch: bool, millis: u128) -> (r: Option<i64>)
    ensures
        r == mtime_of(before_epoch, millis as int),
{
    if millis > 0x7fff_ffff_ffff_ffff {
        None
    } else if before_epoch {
        Some(-(millis as i64))
    } else {
        Some(millis as i64)
    }
}

/// What the upper layer holds at a path: its kind, where it is a file or symlink, its mode and
/// its modification time.
#[derive(Debug, Clone, Copy)]
pub struct UpperFacts {
    pub kind: Option<WrittenKind>,
    pub mode: u32,
    pub mtime_ms: Option<i64>,
}

/// A written path ready to be stored.
#[derive(Debug)]
pub struct Job {
    pub names: Vec<String>,
    pub kind: WrittenKind,
    pub mode: Option<u32>,
    pub mtime_ms: Option<i64>,
}

/// The mathematical model of a [`Job`].
#[verifier::ext_equal]
pub struct JobView {
    pub names: Seq<Seq<char>>,
    pub kind: WrittenKind,
    pub mode: Option<u32>,
    pub mtime_ms: Option<i64>,
}

impl View for Job {
    type V = JobView;

    open spec fn view(&self) -> JobView {
        JobView { names: text::views(self.names@), kind: self.kind, mode: self.mode, mtime_ms: self.mtime_ms }
    }
}

pub open spec fn job_views(v: Seq<Job>) -> Seq<JobView> {
    v.map_values(|j: Job| j@)
}

pub open spec fn kind_label(kind: WrittenKind) -> Seq<char> {
    match kind {
        WrittenKind::File => "File"@,
        WrittenKind::Symlink => "Symlink"@,
    }
}

fn kind_text(kind: WrittenKind) -> (r: &'static str)
    ensures
        r@ == kind_label(kind),
{
    match kind {
        WrittenKind::File => "File",
        WrittenKind::Symlink => "Symlink",
    }
}

/// The message for a path that is no longer what the change set read.
pub open spec fn moved_message(kind: WrittenKind, on_disk: Option<WrittenKind>) -> Seq<char> {
    "the change set read this path as "@ + kind_label(kind) + ", but the upper layer holds "@ + (match on_disk {
        Some(k) => kind_label(k),
        None => "neither a file nor a symlink"@,
    }) + " there now"@
}

pub open spec fn facts_view(f: Result<UpperFacts, String>) -> Result<UpperFacts, Seq<char>> {
    match f {
        Ok(x) => Ok(x),
        Err(e) => Err(e@),
    }
}

/// The job for one written path: its names, the kind the upper layer must still hold there, and
/// for a file its mode and mtime.
pub open spec fn job_of(path: Seq<u8>, kind: WrittenKind, facts: Result<UpperFacts, Seq<char>>) -> Result<JobView, StopView> {
    match changeset::path_names(path) {
        Err(problem) => Err(StopView::UnsafePath { path, problem }),
        Ok(names) => match facts {
            Err(message) => Err(StopView::Io { path, message }),
            Ok(f) => if f.kind != Some(kind) {
                Err(StopView::Io { path, message: moved_message(kind, f.kind) })
            } else if kind == WrittenKind::Symlink {
                Ok(JobView { names, kind, mode: None, mtime_ms: None })
            } else {
                Ok(JobView { names, kind, mode: Some(f.mode & overlay::PERMISSION_BITS), mtime_ms: f.mtime_ms })
            },
        },
    }
}

/// The jobs for the written paths, or the first that cannot be had.
pub open spec fn jobs_of(written: Seq<Written>, facts: Seq<Result<UpperFacts, String>>) -> Result<Seq<JobView>, StopView>
    decreases written.len(),
{
    if written.len() == 0 {
        Ok(Seq::empty())
    } else {
        match jobs_of(written.drop_last(), facts.take(written.len() - 1)) {
            Err(s) => Err(s),
            Ok(jobs) => match job_of(
                written.last().path@,
                written.last().kind,
                facts_view(facts[written.len() - 1]),
            ) {
                Err(s) => Err(s),
                Ok(job) => Ok(jobs.push(job)),
            },
        }
    }
}

fn job(w: &Written, facts: &Result<UpperFacts, String>) -> (r: Result<Job, Stop>)
    ensures
        match r {
            Ok(j) => job_of(w.path@, w.kind, facts_view(*facts)) matches Ok(x) && j@ == x,
            Err(s) => job_of(w.path@, w.kind, facts_view(*facts)) matches Err(x) && s@ == x,
        },
{
    let names = match changeset::components(&w.path) {
        Err(problem) => {
            return Err(Stop::UnsafePath { path: changeset::copy_bytes(&w.path), problem });
        },
        Ok(names) => names,
    };
    let f = match facts {
        Err(message) => {
            return Err(Stop::Io { path: changeset::copy_bytes(&w.path), message: message.clone() });
        },
        Ok(f) => f,
    };
    let same: bool = match f.kind {
        Some(k) => k == w.kind,
        None => false,
    };
    if !same {
        let mut message: String = "the change set read this path as ".to_owned();
        message.append(kind_text(w.kind));
        message.append(", but the upper layer holds ");
        match f.kind {
            Some(k) => {
                message.append(kind_text(k));
            },
            None => {
                message.append("neither a file nor a symlink");
            },
        }
        message.append(" there now");
        return Err(Stop::Io { path: changeset::copy_bytes(&w.path), message });
    }
    match w.kind {
        WrittenKind::Symlink => Ok(Job { names, kind: w.kind, mode: None, mtime_ms: None }),
        WrittenKind::File => Ok(
            Job { names, kind: w.kind, mode: Some(f.mode & overlay::PERMISSION_BITS), mtime_ms: f.mtime_ms },
        ),
    }
}

proof fn first_stop_is_kept(written: Seq<Written>, facts: Seq<Result<UpperFacts, String>>, i: int)
    requires
        0 <= i <= written.len() == facts.len(),
        jobs_of(written.take(i), facts.take(i)) is Err,
    ensures
        jobs_of(written, facts) == jobs_of(written.take(i), facts.take(i)),
    decreases written.len(),
{
    if i == written.len() {
        assert(written.take(i) =~= written);
        assert(facts.take(i) =~= facts);
    } else {
        assert(written.drop_last().take(i) =~= written.take(i));
        assert(facts.take(written.len() - 1).take(i) =~= facts.take(i));
        first_stop_is_kept(written.drop_last(), facts.take(written.len() - 1), i);
    }
}

/// Checks every written path against the upper layer, before anything is stored.
pub fn check_written(written: &Vec<Written>, facts: &Vec<Result<UpperFacts, String>>) -> (r: Result<Vec<Job>, Stop>)
    requires
        written@.len() == facts@.len(),
    ensures
        match r {
            Ok(jobs) => jobs_of(written@, facts@) matches Ok(x) && job_views(jobs@) == x,
            Err(s) => jobs_of(written@, facts@) matches Err(x) && s@ == x,
        },
{
    let mut jobs: Vec<Job> = Vec::new();
    let mut i: usize = 0;
    assert(job_views(jobs@) =~= Seq::<JobView>::empty());
    while i < written.len()
        invariant
            i <= written@.len(),
            written@.len() == facts@.len(),
            jobs_of(written@.take(i as int), facts@.take(i as int)) == Ok::<Seq<JobView>, StopView>(job_views(jobs@)),
        decreases written@.len() - i,
    {
        proof {
            let w = written@.take(i + 1);
            let f = facts@.take(i + 1);
            assert(w.drop_last() =~= written@.take(i as int));
            assert(f.take(i as int) =~= facts@.take(i as int));
            assert(w.last() == written@[i as int]);
            assert(f[i as int] == facts@[i as int]);
        }
        match job(&written[i], &facts[i]) {
            Err(s) => {
                proof {
                    first_stop_is_kept(written@, facts@, i + 1);
                }
                return Err(s);
            },
            Ok(j) => {
                let ghost before = job_views(jobs@);
                let ghost jv = j@;
                jobs.push(j);
                assert(job_views(jobs@) =~= before.push(jv));
            },
        }
        i = i + 1;
    }
    assert(written@.take(i as int) =~= written@);
    assert(facts@.take(i as int) =~= facts@);
    Ok(jobs)
}

/// The directory tree being built, with the reads, grafts and whiteouts so far.
#[derive(Debug)]
pub struct Fold {
    pub root: DirNode,
    pub reads: u64,
    pub grafted: u64,
    pub deleted: u64,
}

/// The mathematical model of a [`Fold`], its counts unbounded.
#[verifier::ext_equal]
pub struct FoldView {
    pub root: DirView,
    pub reads: nat,
    pub grafted: nat,
    pub deleted: nat,
}

/// `f` stands for `v`: the same tree, and its counts as far as counters hold them.
pub open spec fn stands_for(f: Fold, v: FoldView) -> bool {
    overlay::node_view(f.root) == v.root && f.reads == overlay::capped(v.reads) && f.grafted == overlay::capped(v.grafted)
        && f.deleted == overlay::capped(v.deleted)
}

pub open spec fn fold_result(r: Result<Fold, Stop>, s: Result<FoldView, StopView>) -> bool {
    match r {
        Ok(f) => s matches Ok(v) && stands_for(f, v),
        Err(e) => s matches Err(x) && e@ == x,
    }
}

/// The fold before any change: the parent snapshot's root, read once.
pub open spec fn folded_start(known: Trees, root: Seq<char>) -> Result<FoldView, StopView> {
    if known.dom().contains(root) {
        Ok(FoldView { root: overlay::fresh(known[root]), reads: 1, grafted: 0, deleted: 0 })
    } else {
        Err(StopView::NeedTree(root))
    }
}

/// The fold after one edit at the names of a path.
pub open spec fn folded_edit(known: Trees, root: Seq<char>, f: FoldView, names: Seq<Seq<char>>, edit: EditView) -> Result<
    FoldView,
    StopView,
> {
    match overlay::edited(known, root, f.root, names, edit) {
        Err(s) => Err(s),
        Ok(x) => Ok(
            FoldView {
                root: x.dir,
                reads: f.reads + x.reads,
                grafted: f.grafted + x.grafts,
                deleted: f.deleted + (if edit is Remove {
                    1nat
                } else {
                    0
                }),
            },
        ),
    }
}

fn fold_edit(known: &KnownTrees, root: &String, f: Fold, names: &Vec<String>, edit: Edit, Ghost(v): Ghost<FoldView>) -> (r: Result<
    Fold,
    Stop,
>)
    requires
        names@.len() > 0,
        stands_for(f, v),
    ensures
        fold_result(r, folded_edit(known@, root@, v, text::views(names@), edit@)),
{
    let removal: bool = match &edit {
        Edit::Remove => true,
        _ => false,
    };
    assert(text::views(names@).skip(0) =~= text::views(names@));
    match overlay::edit_at(known, root, f.root, names, 0, edit) {
        Err(s) => Err(s),
        Ok(x) => Ok(
            Fold {
                root: x.node,
                reads: f.reads.saturating_add(x.reads),
                grafted: f.grafted.saturating_add(x.grafts),
                deleted: if removal {
                    f.deleted.saturating_add(1)
                } else {
                    f.deleted
                },
            },
        ),
    }
}

/// The fold after one path's edit, or the problem with the path.
pub open spec fn folded_path(known: Trees, root: Seq<char>, f: FoldView, path: Seq<u8>, edit: EditView) -> Result<
    FoldView,
    StopView,
> {
    match changeset::path_names(path) {
        Err(problem) => Err(StopView::UnsafePath { path, problem }),
        Ok(names) => folded_edit(known, root, f, names, edit),
    }
}

fn fold_path(known: &KnownTrees, root: &String, f: Fold, path: &Vec<u8>, edit: Edit, Ghost(v): Ghost<FoldView>) -> (r: Result<
    Fold,
    Stop,
>)
    requires
        stands_for(f, v),
    ensures
        fold_result(r, folded_path(known@, root@, v, path@, edit@)),
{
    match changeset::components(path) {
        Err(problem) => Err(Stop::UnsafePath { path: changeset::copy_bytes(path), problem }),
        Ok(names) => fold_edit(known, root, f, &names, edit, Ghost(v)),
    }
}

/// What the upper layer says of a directory: its mode and mtime, or why it could not be read.
pub type DirMeta = Result<(u32, Option<i64>), String>;

pub open spec fn directory_edit(d: Directory, meta: DirMeta) -> EditView {
    EditView::Directory {
        path: d.path@,
        redirect: overlay::opt_bytes(d.redirect),
        opaque: d.opaque,
        meta: overlay::meta_view(meta),
    }
}

/// The fold after the directory pass.
pub open spec fn folded_directories(known: Trees, root: Seq<char>, dirs: Seq<Directory>, metas: Seq<DirMeta>) -> Result<
    FoldView,
    StopView,
>
    decreases dirs.len(),
{
    if dirs.len() == 0 {
        folded_start(known, root)
    } else {
        match folded_directories(known, root, dirs.drop_last(), metas.take(dirs.len() - 1)) {
            Err(s) => Err(s),
            Ok(f) => folded_path(
                known,
                root,
                f,
                dirs.last().path@,
                directory_edit(dirs.last(), metas[dirs.len() - 1]),
            ),
        }
    }
}

proof fn directory_stop_is_kept(known: Trees, root: Seq<char>, dirs: Seq<Directory>, metas: Seq<DirMeta>, i: int)
    requires
        0 <= i <= dirs.len() == metas.len(),
        folded_directories(known, root, dirs.take(i), metas.take(i)) is Err,
    ensures
        folded_directories(known, root, dirs, metas) == folded_directories(known, root, dirs.take(i), metas.take(i)),
    decreases dirs.len(),
{
    if i == dirs.len() {
        assert(dirs.take(i) =~= dirs);
        assert(metas.take(i) =~= metas);
    } else {
        assert(dirs.drop_last().take(i) =~= dirs.take(i));
        assert(metas.take(dirs.len() - 1).take(i) =~= metas.take(i));
        directory_stop_is_kept(known, root, dirs.drop_last(), metas.take(dirs.len() - 1), i);
    }
}

/// Lays the touched directories over the parent snapshot, each with what it inherits: the content
/// at its recorded source where it was renamed, nothing where it is opaque, and else what the
/// directory around it inherits at its name.
pub fn apply_directories(known: &KnownTrees, root: &String, dirs: &Vec<Directory>, metas: &Vec<DirMeta>) -> (r: Result<
    Fold,
    Stop,
>)
    requires
        dirs@.len() == metas@.len(),
    ensures
        fold_result(r, folded_directories(known@, root@, dirs@, metas@)),
{
    let entries = match known.get(root) {
        None => {
            proof {
                assert(dirs@.take(0) =~= Seq::<Directory>::empty());
                directory_stop_is_kept(known@, root@, dirs@, metas@, 0);
            }
            return Err(Stop::NeedTree(root.clone()));
        },
        Some(entries) => entries,
    };
    let mut f = Fold {
        root: overlay::fresh_node(overlay::copy_entries(entries)),
        reads: 1,
        grafted: 0,
        deleted: 0,
    };
    let ghost mut v = FoldView { root: overlay::fresh(known@[root@]), reads: 1, grafted: 0, deleted: 0 };
    let mut i: usize = 0;
    while i < dirs.len()
        invariant
            i <= dirs@.len(),
            dirs@.len() == metas@.len(),
            stands_for(f, v),
            folded_directories(known@, root@, dirs@.take(i as int), metas@.take(i as int)) == Ok::<FoldView, StopView>(v),
        decreases dirs@.len() - i,
    {
        proof {
            let d = dirs@.take(i + 1);
            let m = metas@.take(i + 1);
            assert(d.drop_last() =~= dirs@.take(i as int));
            assert(m.take(i as int) =~= metas@.take(i as int));
            assert(d.last() == dirs@[i as int]);
            assert(m[i as int] == metas@[i as int]);
        }
        let d = &dirs[i];
        let edit = Edit::Directory { path: &d.path, redirect: &d.redirect, opaque: d.opaque, meta: &metas[i] };
        match fold_path(known, root, f, &d.path, edit, Ghost(v)) {
            Err(s) => {
                proof {
                    directory_stop_is_kept(known@, root@, dirs@, metas@, i + 1);
                }
                return Err(s);
            },
            Ok(next) => {
                f = next;
                proof {
                    v = folded_directories(known@, root@, dirs@.take(i + 1), metas@.take(i + 1))->Ok_0;
                }
            },
        }
        i = i + 1;
    }
    assert(dirs@.take(i as int) =~= dirs@);
    assert(metas@.take(i as int) =~= metas@);
    Ok(f)
}

/// The entry a job leaves at its path. A symlink has the mode that marks one and no mtime.
pub open spec fn job_entry(job: JobView, blob: Seq<char>, symlink_mode: u32) -> EntryView {
    EntryView {
        name: job.names.last(),
        target: TargetView::Blob(blob),
        mode: match job.kind {
            WrittenKind::Symlink => Some(symlink_mode),
            WrittenKind::File => job.mode,
        },
        mtime_ms: match job.kind {
            WrittenKind::Symlink => None,
            WrittenKind::File => job.mtime_ms,
        },
    }
}

/// The fold after the written entries were placed.
pub open spec fn folded_written(
    known: Trees,
    root: Seq<char>,
    f: FoldView,
    jobs: Seq<JobView>,
    blobs: Seq<Seq<char>>,
    symlink_mode: u32,
) -> Result<FoldView, StopView>
    decreases jobs.len(),
{
    if jobs.len() == 0 {
        Ok(f)
    } else {
        match folded_written(known, root, f, jobs.drop_last(), blobs, symlink_mode) {
            Err(s) => Err(s),
            Ok(g) => folded_edit(
                known,
                root,
                g,
                jobs.last().names,
                EditView::Put(job_entry(jobs.last(), blobs[jobs.len() - 1], symlink_mode)),
            ),
        }
    }
}

proof fn written_stop_is_kept(
    known: Trees,
    root: Seq<char>,
    f: FoldView,
    jobs: Seq<JobView>,
    blobs: Seq<Seq<char>>,
    symlink_mode: u32,
    i: int,
)
    requires
        0 <= i <= jobs.len(),
        folded_written(known, root, f, jobs.take(i), blobs, symlink_mode) is Err,
    ensures
        folded_written(known, root, f, jobs, blobs, symlink_mode) == folded_written(
            known,
            root,
            f,
            jobs.take(i),
            blobs,
            symlink_mode,
        ),
    decreases jobs.len(),
{
    if i == jobs.len() {
        assert(jobs.take(i) =~= jobs);
    } else {
        assert(jobs.drop_last().take(i) =~= jobs.take(i));
        written_stop_is_kept(known, root, f, jobs.drop_last(), blobs, symlink_mode, i);
    }
}

/// Every job has a name to place its entry at.
pub open spec fn named_jobs(jobs: Seq<JobView>) -> bool {
    forall|i: int| 0 <= i < jobs.len() ==> (#[trigger] jobs[i]).names.len() > 0
}

/// Jobs that passed the check have names.
pub proof fn checked_jobs_are_named(written: Seq<Written>, facts: Seq<Result<UpperFacts, String>>)
    ensures
        jobs_of(written, facts) matches Ok(jobs) ==> named_jobs(jobs) && jobs.len() == written.len(),
    decreases written.len(),
{
    if written.len() > 0 {
        checked_jobs_are_named(written.drop_last(), facts.take(written.len() - 1));
    }
}

fn apply_written(
    known: &KnownTrees,
    root: &String,
    start: Fold,
    jobs: &Vec<Job>,
    blobs: &Vec<String>,
    symlink_mode: u32,
    Ghost(v): Ghost<FoldView>,
) -> (r: Result<Fold, Stop>)
    requires
        stands_for(start, v),
        jobs@.len() == blobs@.len(),
        named_jobs(job_views(jobs@)),
    ensures
        fold_result(r, folded_written(known@, root@, v, job_views(jobs@), text::views(blobs@), symlink_mode)),
{
    let ghost js = job_views(jobs@);
    let ghost bs = text::views(blobs@);
    let ghost mut now = v;
    let mut f = start;
    let mut i: usize = 0;
    while i < jobs.len()
        invariant
            i <= jobs@.len(),
            jobs@.len() == blobs@.len(),
            js == job_views(jobs@),
            bs == text::views(blobs@),
            named_jobs(js),
            stands_for(f, now),
            folded_written(known@, root@, v, js.take(i as int), bs, symlink_mode) == Ok::<FoldView, StopView>(now),
        decreases jobs@.len() - i,
    {
        let j = &jobs[i];
        assert(js[i as int].names.len() > 0);
        let ghost next = js.take(i + 1);
        proof {
            assert(next.drop_last() =~= js.take(i as int));
            assert(next.last() == j@);
        }
        let entry = TreeEntry {
            name: j.names[j.names.len() - 1].clone(),
            target: TreeTarget::Blob(blobs[i].clone()),
            mode: match j.kind {
                WrittenKind::Symlink => Some(symlink_mode),
                WrittenKind::File => j.mode,
            },
            mtime_ms: match j.kind {
                WrittenKind::Symlink => None,
                WrittenKind::File => j.mtime_ms,
            },
        };
        assert(entry@ == job_entry(j@, bs[i as int], symlink_mode));
        match fold_edit(known, root, f, &j.names, Edit::Put(entry), Ghost(now)) {
            Err(s) => {
                proof {
                    written_stop_is_kept(known@, root@, v, js, bs, symlink_mode, i + 1);
                }
                return Err(s);
            },
            Ok(g) => {
                f = g;
                proof {
                    now = folded_written(known@, root@, v, next, bs, symlink_mode)->Ok_0;
                }
            },
        }
        i = i + 1;
    }
    assert(js.take(i as int) =~= js);
    Ok(f)
}

/// The fold after the whiteouts.
pub open spec fn folded_deletions(known: Trees, root: Seq<char>, f: FoldView, deleted: Seq<Seq<u8>>) -> Result<
    FoldView,
    StopView,
>
    decreases deleted.len(),
{
    if deleted.len() == 0 {
        Ok(f)
    } else {
        match folded_deletions(known, root, f, deleted.drop_last()) {
            Err(s) => Err(s),
            Ok(g) => folded_path(known, root, g, deleted.last(), EditView::Remove),
        }
    }
}

proof fn deletion_stop_is_kept(known: Trees, root: Seq<char>, f: FoldView, deleted: Seq<Seq<u8>>, i: int)
    requires
        0 <= i <= deleted.len(),
        folded_deletions(known, root, f, deleted.take(i)) is Err,
    ensures
        folded_deletions(known, root, f, deleted) == folded_deletions(known, root, f, deleted.take(i)),
    decreases deleted.len(),
{
    if i == deleted.len() {
        assert(deleted.take(i) =~= deleted);
    } else {
        assert(deleted.drop_last().take(i) =~= deleted.take(i));
        deletion_stop_is_kept(known, root, f, deleted.drop_last(), i);
    }
}

fn apply_deletions(known: &KnownTrees, root: &String, start: Fold, deleted: &Vec<Vec<u8>>, Ghost(v): Ghost<FoldView>) -> (r: Result<
    Fold,
    Stop,
>)
    requires
        stands_for(start, v),
    ensures
        fold_result(r, folded_deletions(known@, root@, v, text::byte_views(deleted@))),
{
    let ghost ds = text::byte_views(deleted@);
    let ghost mut now = v;
    let mut f = start;
    let mut i: usize = 0;
    while i < deleted.len()
        invariant
            i <= deleted@.len(),
            ds == text::byte_views(deleted@),
            stands_for(f, now),
            folded_deletions(known@, root@, v, ds.take(i as int)) == Ok::<FoldView, StopView>(now),
        decreases deleted@.len() - i,
    {
        let ghost next = ds.take(i + 1);
        proof {
            assert(next.drop_last() =~= ds.take(i as int));
            assert(next.last() == deleted@[i as int]@);
        }
        match fold_path(known, root, f, &deleted[i], Edit::Remove, Ghost(now)) {
            Err(s) => {
                proof {
                    deletion_stop_is_kept(known@, root@, v, ds, i + 1);
                }
                return Err(s);
            },
            Ok(g) => {
                f = g;
                proof {
                    now = folded_deletions(known@, root@, v, next)->Ok_0;
                }
            },
        }
        i = i + 1;
    }
    assert(ds.take(i as int) =~= ds);
    Ok(f)
}

/// The fold of a whole change set: directories, then written entries, then whiteouts.
pub open spec fn folded_change(
    known: Trees,
    root: Seq<char>,
    change: ChangeSet,
    metas: Seq<DirMeta>,
    jobs: Seq<JobView>,
    blobs: Seq<Seq<char>>,
    symlink_mode: u32,
) -> Result<FoldView, StopView> {
    match folded_directories(known, root, change.directories@, metas) {
        Err(s) => Err(s),
        Ok(f) => match folded_written(known, root, f, jobs, blobs, symlink_mode) {
            Err(s) => Err(s),
            Ok(g) => folded_deletions(known, root, g, text::byte_views(change.deleted@)),
        },
    }
}

/// Folds a change set whose written paths passed the check and were stored.
pub fn settle_change_set(
    known: &KnownTrees,
    root: &String,
    change: &ChangeSet,
    metas: &Vec<DirMeta>,
    jobs: &Vec<Job>,
    blobs: &Vec<String>,
    symlink_mode: u32,
) -> (r: Result<Fold, Stop>)
    requires
        change.directories@.len() == metas@.len(),
        jobs@.len() == blobs@.len(),
        named_jobs(job_views(jobs@)),
    ensures
        fold_result(
            r,
            folded_change(known@, root@, *change, metas@, job_views(jobs@), text::views(blobs@), symlink_mode),
        ),
{
    let f = match apply_directories(known, root, &change.directories, metas) {
        Err(s) => {
            return Err(s);
        },
        Ok(f) => f,
    };
    let ghost v = folded_directories(known@, root@, change.directories@, metas@)->Ok_0;
    let g = match apply_written(known, root, f, jobs, blobs, symlink_mode, Ghost(v)) {
        Err(s) => {
            return Err(s);
        },
        Ok(g) => g,
    };
    let ghost w = folded_written(known@, root@, v, job_views(jobs@), text::views(blobs@), symlink_mode)->Ok_0;
    apply_deletions(known, root, g, &change.deleted, Ghost(w))
}

/// A path that is no longer what the change set read is said to be what the upper layer holds now,
/// and one that could not be read is said to be why.
pub proof fn moved_paths_are_told(path: Seq<u8>, f: UpperFacts, m: Seq<char>, kind: WrittenKind)
    requires
        changeset::path_names(path) is Ok,
    ensures
        job_of(path, kind, Err(m)) == Err::<JobView, StopView>(StopView::Io { path, message: m }),
        kind is File && f.kind == Some(WrittenKind::Symlink) ==> job_of(path, kind, Ok(f)) == Err::<JobView, StopView>(
            StopView::Io {
                path,
                message: "the change set read this path as "@ + "File"@ + ", but the upper layer holds "@ + "Symlink"@
                    + " there now"@,
            },
        ),
        kind is Symlink && f.kind == Some(WrittenKind::File) ==> job_of(path, kind, Ok(f)) == Err::<JobView, StopView>(
            StopView::Io {
                path,
                message: "the change set read this path as "@ + "Symlink"@ + ", but the upper layer holds "@ + "File"@
                    + " there now"@,
            },
        ),
        kind is File && f.kind is None ==> job_of(path, kind, Ok(f)) == Err::<JobView, StopView>(
            StopView::Io {
                path,
                message: "the change set read this path as "@ + "File"@ + ", but the upper layer holds "@
                    + "neither a file nor a symlink"@ + " there now"@,
            },
        ),
{
}

} // verus!
