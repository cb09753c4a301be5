//! What a repo offers at a ref: its pipelines, and its branches and tags.

use crate::errors::{ApiError, ApiErrorView, ForgeError};
use crate::json::Json;
use crate::refs;
use crate::sort::{self, Ranked};
use crate::text;
use vstd::prelude::*;

verus! {

/// A path, ordered by its text.
#[derive(Debug)]
pub struct PathName(pub String);

impl Ranked for PathName {
    open spec fn ranks_before(&self, other: &Self) -> bool {
        text::lex_le(self.0@, other.0@)
    }

    proof fn rank_total(a: &Self, b: &Self) {
        text::lex_le_total(a.0@, b.0@);
    }

    proof fn rank_transitive(a: &Self, b: &Self, c: &Self) {
        text::lex_le_transitive(a.0@, b.0@, c.0@);
    }

    fn may_precede(&self, other: &Self) -> (r: bool) {
        text::str_le(self.0.as_str(), other.0.as_str())
    }
}

/// The pipeline files among paths, in their order.
pub open spec fn pipeline_files(paths: Seq<PathName>) -> Seq<PathName>
    decreases paths.len(),
{
    if paths.len() == 0 {
        paths
    } else if refs::pipeline_file(paths.last().0@) {
        pipeline_files(paths.drop_last()).push(paths.last())
    } else {
        pipeline_files(paths.drop_last())
    }
}

/// The pipeline files of a directory listing, by name.
pub fn pipeline_paths(paths: Vec<PathName>) -> (r: Vec<PathName>)
    ensures
        r@ == sort::sorted(pipeline_files(paths@)),
{
    let mut out: Vec<PathName> = Vec::new();
    assert(out@ =~= pipeline_files(paths@.take(0)));
    for p in it: paths
        invariant
            it.seq() == paths@,
            out@ == pipeline_files(paths@.take(it.index())),
    {
        let ghost k = it.index();
        assert(paths@.take(k + 1).drop_last() =~= paths@.take(k));
        assert(paths@.take(k + 1).last() == p);
        if refs::is_pipeline_file(p.0.as_str()) {
            out.push(p);
        }
    }
    assert(paths@.take(paths@.len() as int) =~= paths@);
    sort::sort(out)
}

/// The pipelines of a directory are exactly its YAML files, by either extension, in the order of
/// their names; none is lost and none is listed more often than the directory lists it.
pub proof fn the_pipelines_are_the_yaml_files(paths: Seq<PathName>)
    ensures
        ({
            let found = sort::sorted(pipeline_files(paths));
            &&& forall|i: int, j: int|
                #![trigger found[i], found[j]]
                0 <= i < j < found.len() ==> text::lex_le(found[i].0@, found[j].0@)
            &&& forall|p: PathName| #[trigger]
                found.to_multiset().count(p) == (if text::has_suffix(p.0@, ".yaml"@) || text::has_suffix(p.0@, ".yml"@) {
                    paths.to_multiset().count(p)
                } else {
                    0
                })
            &&& forall|p: PathName| #[trigger]
                found.contains(p) <==> paths.contains(p) && (text::has_suffix(p.0@, ".yaml"@) || text::has_suffix(
                    p.0@,
                    ".yml"@,
                ))
        }),
{
    broadcast use vstd::seq_lib::group_to_multiset_ensures;

    let files = pipeline_files(paths);
    let found = sort::sorted(files);
    sort::sorted_is_ordered_permutation(files);
    assert forall|i: int, j: int| #![trigger found[i], found[j]] 0 <= i < j < found.len() implies text::lex_le(
        found[i].0@,
        found[j].0@,
    ) by {
        assert(found[i].ranks_before(&found[j]));
    }
    assert forall|p: PathName| #[trigger] found.to_multiset().count(p) == (if text::has_suffix(p.0@, ".yaml"@) || text::has_suffix(
        p.0@,
        ".yml"@,
    ) {
        paths.to_multiset().count(p)
    } else {
        0
    }) by {
        pipeline_files_are_counted(paths, p);
    }
    assert forall|p: PathName| #[trigger] found.contains(p) <==> paths.contains(p) && (text::has_suffix(p.0@, ".yaml"@)
        || text::has_suffix(p.0@, ".yml"@)) by {
        assert(found.to_multiset().count(p) > 0 <==> found.contains(p));
        assert(paths.to_multiset().count(p) > 0 <==> paths.contains(p));
    }
}

proof fn pipeline_files_are_counted(paths: Seq<PathName>, p: PathName)
    ensures
        pipeline_files(paths).to_multiset().count(p) == (if text::has_suffix(p.0@, ".yaml"@) || text::has_suffix(
            p.0@,
            ".yml"@,
        ) {
            paths.to_multiset().count(p)
        } else {
            0
        }),
    decreases paths.len(),
{
    broadcast use vstd::seq_lib::group_to_multiset_ensures;

    if paths.len() > 0 {
        pipeline_files_are_counted(paths.drop_last(), p);
        assert(paths =~= paths.drop_last().push(paths.last()));
    }
}

/// A request for the pipelines at a ref.
#[derive(Debug)]
pub struct PipelineRefQuery {
    pub git_ref: String,
}

/// A pipeline as the catalog lists it: whether it may be started by hand or by the API, or why
/// it could not be read.
#[derive(Debug)]
pub struct CatalogEntry {
    pub name: String,
    pub manual: bool,
    pub api: bool,
    pub error: Option<String>,
}

#[derive(Debug)]
pub struct PipelineCatalogResponse {
    pub sha: String,
    pub pipelines: Vec<CatalogEntry>,
}

/// What reading a pipeline file gave: its triggers, or what stood in the way.
#[derive(Debug)]
pub enum CatalogRead {
    /// The names of the events it starts on.
    Triggers(Vec<String>),
    /// It does not parse.
    Unparsable(String),
    NotUtf8,
    Unread(ForgeError),
}

/// The directory listing that the catalog goes by: a directory that is not there has no files.
pub fn catalog_listing(listed: Result<Vec<PathName>, ForgeError>) -> (r: Result<Vec<PathName>, ApiError>)
    ensures
        match listed {
            Ok(v) => r == Ok::<Vec<PathName>, ApiError>(v),
            Err(e) => if e is Api {
                r matches Ok(v) && v@.len() == 0
            } else {
                r matches Err(x) && x@ == ApiErrorView::BadRequest(e.message())
            },
        },
{
    match listed {
        Ok(v) => Ok(v),
        Err(ForgeError::Api { rendered: _ }) => Ok(Vec::new()),
        Err(e) => Err(ApiError::BadRequest(e.into_message())),
    }
}

/// The mathematical model of a [`CatalogEntry`].
pub struct CatalogView {
    pub name: Seq<char>,
    pub manual: bool,
    pub api: bool,
    pub error: Option<Seq<char>>,
}

impl View for CatalogEntry {
    type V = CatalogView;

    open spec fn view(&self) -> CatalogView {
        CatalogView { name: self.name@, manual: self.manual, api: self.api, error: text::opt_view(self.error) }
    }
}

/// The entry of a pipeline file. A file that does not parse is listed with its error; one that is
/// gone is left out.
pub open spec fn entry_of(path: Seq<char>, read: CatalogRead) -> Result<Option<CatalogView>, Seq<char>> {
    let name = refs::bare_name(path);
    match read {
        CatalogRead::Triggers(t) => Ok(
            Some(
                CatalogView {
                    name,
                    manual: text::views(t@).contains("manual"@),
                    api: text::views(t@).contains("api"@),
                    error: None,
                },
            ),
        ),
        CatalogRead::Unparsable(m) => Ok(Some(CatalogView { name, manual: false, api: false, error: Some(m@) })),
        CatalogRead::NotUtf8 => Ok(
            Some(CatalogView { name, manual: false, api: false, error: Some("config is not valid UTF-8"@) }),
        ),
        CatalogRead::Unread(f) => if f is Api {
            Ok(None)
        } else {
            Err(f.message())
        },
    }
}

/// A pipeline is offered for a start by hand exactly where it names that trigger, and likewise for
/// the API; a file that cannot be used is listed with the reason and offered for neither.
pub proof fn pipelines_are_offered_as_they_declare(path: Seq<char>, read: CatalogRead)
    ensures
        match read {
            CatalogRead::Triggers(t) => entry_of(path, read) matches Ok(Some(e)) && e.name == refs::bare_name(path) && e.error
                is None && (e.manual <==> exists|i: int| 0 <= i < t@.len() && (#[trigger] t@[i])@ == "manual"@) && (e.api
                <==> exists|i: int| 0 <= i < t@.len() && (#[trigger] t@[i])@ == "api"@),
            CatalogRead::Unparsable(m) => entry_of(path, read) matches Ok(Some(e)) && e.name == refs::bare_name(path)
                && e.error == Some(m@) && !e.manual && !e.api,
            CatalogRead::NotUtf8 => entry_of(path, read) matches Ok(Some(e)) && e.name == refs::bare_name(path) && e.error
                == Some("config is not valid UTF-8"@) && !e.manual && !e.api,
            CatalogRead::Unread(f) => if f is Api {
                entry_of(path, read) == Ok::<Option<CatalogView>, Seq<char>>(None)
            } else {
                entry_of(path, read) == Err::<Option<CatalogView>, Seq<char>>(f.message())
            },
        },
{
    if let CatalogRead::Triggers(t) = read {
        let v = text::views(t@);
        assert forall|w: Seq<char>| #[trigger] v.contains(w) <==> exists|i: int| 0 <= i < t@.len() && (#[trigger] t@[i])@ == w by {
            if v.contains(w) {
                let i = choose|i: int| 0 <= i < v.len() && v[i] == w;
                assert(t@[i]@ == w);
            }
            if exists|i: int| 0 <= i < t@.len() && (#[trigger] t@[i])@ == w {
                let i = choose|i: int| 0 <= i < t@.len() && (#[trigger] t@[i])@ == w;
                assert(v[i] == w);
            }
        }
    }
}

/// The entry of a pipeline file, by what reading it gave.
pub fn catalog_entry(path: &str, read: CatalogRead) -> (r: Result<Option<CatalogEntry>, ApiError>)
    ensures
        match r {
            Ok(Some(e)) => entry_of(path@, read) == Ok::<Option<CatalogView>, Seq<char>>(Some(e@)),
            Ok(None) => entry_of(path@, read) == Ok::<Option<CatalogView>, Seq<char>>(None),
            Err(e) => entry_of(path@, read) matches Err(m) && e@ == ApiErrorView::BadRequest(m),
        },
{
    let name = refs::bare_pipeline_name(path);
    match read {
        CatalogRead::Triggers(t) => Ok(
            Some(
                CatalogEntry {
                    name,
                    manual: text::contains_string(&t, "manual"),
                    api: text::contains_string(&t, "api"),
                    error: None,
                },
            ),
        ),
        CatalogRead::Unparsable(m) => Ok(Some(CatalogEntry { name, manual: false, api: false, error: Some(m) })),
        CatalogRead::NotUtf8 => Ok(
            Some(
                CatalogEntry {
                    name,
                    manual: false,
                    api: false,
                    error: Some("config is not valid UTF-8".to_owned()),
                },
            ),
        ),
        CatalogRead::Unread(ForgeError::Api { rendered: _ }) => Ok(None),
        CatalogRead::Unread(f) => Err(ApiError::BadRequest(f.into_message())),
    }
}

/// The pipelines of a repo at a commit, while their files are read one after another.
#[derive(Debug)]
pub struct Catalog {
    pub paths: Vec<PathName>,
    pub at: usize,
    pub entries: Vec<CatalogEntry>,
}

pub open spec fn entry_views(v: Seq<CatalogEntry>) -> Seq<CatalogView> {
    v.map_values(|e: CatalogEntry| e@)
}

/// The catalog of a directory listing, with none of its pipeline files read yet. They come by
/// name.
pub fn list_pipelines(listed: Result<Vec<PathName>, ForgeError>) -> (r: Result<Catalog, ApiError>)
    ensures
        match listed {
            Ok(v) => r matches Ok(c) && c.paths@ == sort::sorted(pipeline_files(v@)) && c.at == 0 && c.entries@.len() == 0,
            Err(e) => if e is Api {
                r matches Ok(c) && c.paths@.len() == 0 && c.at == 0 && c.entries@.len() == 0
            } else {
                r matches Err(x) && x@ == ApiErrorView::BadRequest(e.message())
            },
        },
{
    let listed = match catalog_listing(listed) {
        Ok(v) => v,
        Err(e) => {
            return Err(e);
        },
    };
    proof {
        sort::sorted_is_ordered_permutation(pipeline_files(listed@));
    }
    Ok(Catalog { paths: pipeline_paths(listed), at: 0, entries: Vec::new() })
}

impl Catalog {
    /// The file to read next.
    pub fn next(&self) -> (r: Option<&str>)
        ensures
            match r {
                Some(p) => self.at < self.paths@.len() && p@ == self.paths@[self.at as int].0@,
                None => self.at >= self.paths@.len(),
            },
    {
        if self.at < self.paths.len() {
            Some(self.paths[self.at].0.as_str())
        } else {
            None
        }
    }

    /// Takes what reading the next file gave.
    pub fn on_read(&mut self, read: CatalogRead) -> (r: Result<(), ApiError>)
        requires
            old(self).at < old(self).paths@.len(),
        ensures
            final(self).paths@ == old(self).paths@,
            match entry_of(old(self).paths@[old(self).at as int].0@, read) {
                Ok(Some(e)) => r is Ok && final(self).at == old(self).at + 1 && entry_views(final(self).entries@)
                    == entry_views(old(self).entries@).push(e),
                Ok(None) => r is Ok && final(self).at == old(self).at + 1 && final(self).entries@ == old(self).entries@,
                Err(m) => r matches Err(e) && e@ == ApiErrorView::BadRequest(m),
            },
    {
        let entry = match catalog_entry(self.paths[self.at].0.as_str(), read) {
            Ok(entry) => entry,
            Err(e) => {
                return Err(e);
            },
        };
        let ghost before = entry_views(self.entries@);
        match entry {
            Some(e) => {
                let ghost v = e@;
                self.entries.push(e);
                assert(entry_views(self.entries@) =~= before.push(v));
            },
            None => {},
        }
        assert(self.at < self.paths.len());
        self.at = self.at + 1;
        Ok(())
    }

    /// The answer once every file was read, with the commit they were read at.
    pub fn into_response(self, sha: String) -> (r: PipelineCatalogResponse)
        ensures
            r.sha == sha,
            r.pipelines == self.entries,
    {
        PipelineCatalogResponse { sha, pipelines: self.entries }
    }
}

/// The entries of files read in turn: those that are gone leave none.
pub open spec fn entries_of(paths: Seq<PathName>, reads: Seq<CatalogRead>) -> Seq<CatalogView>
    decreases reads.len(),
{
    if reads.len() == 0 {
        Seq::empty()
    } else {
        match entry_of(paths[reads.len() - 1].0@, reads.last()) {
            Ok(Some(e)) => entries_of(paths, reads.drop_last()).push(e),
            _ => entries_of(paths, reads.drop_last()),
        }
    }
}

/// One file that cannot be parsed does not hide the others: a catalog lists every pipeline file
/// of its directory that is still there, whatever the others hold.
pub proof fn every_pipeline_is_listed(paths: Seq<PathName>, reads: Seq<CatalogRead>, i: int)
    requires
        reads.len() <= paths.len(),
        0 <= i < reads.len(),
        entry_of(paths[i].0@, reads[i]) matches Ok(Some(_)),
    ensures
        entries_of(paths, reads).contains(entry_of(paths[i].0@, reads[i])->Ok_0->0),
    decreases reads.len(),
{
    let e = entry_of(paths[i].0@, reads[i])->Ok_0->0;
    let all = entries_of(paths, reads);
    if i == reads.len() - 1 {
        assert(all[all.len() - 1] == e);
    } else {
        let rest = reads.drop_last();
        every_pipeline_is_listed(paths, rest, i);
        let before = entries_of(paths, rest);
        let k = choose|k: int| 0 <= k < before.len() && before[k] == e;
        assert(all[k] == e);
    }
}

/// What a pipeline asks of whoever starts it: the commit it was read at, whether it may be
/// started by hand or by the API, and its inputs as they were compiled.
#[derive(Debug)]
pub struct PipelineInterfaceResponse {
    pub sha: String,
    pub manual: bool,
    pub api: bool,
    pub inputs: Json,
}

/// The interface of a compiled pipeline; `triggers` are the names of the events it starts on.
pub fn pipeline_interface(sha: String, triggers: &Vec<String>, inputs: Json) -> (r: PipelineInterfaceResponse)
    ensures
        r.sha == sha,
        r.manual == text::views(triggers@).contains("manual"@),
        r.api == text::views(triggers@).contains("api"@),
        r.inputs == inputs,
{
    PipelineInterfaceResponse {
        sha,
        manual: text::contains_string(triggers, "manual"),
        api: text::contains_string(triggers, "api"),
        inputs,
    }
}

#[derive(Debug, Clone, Copy, PartialEq, Eq, Structural)]
pub enum RefKind {
    Branch,
    Tag,
}

/// A branch or tag as the forge lists it.
#[derive(Debug)]
pub struct ForgeRef {
    pub kind: RefKind,
    pub name: String,
    pub sha: String,
}

/// A request for the branches and tags.
#[derive(Debug)]
pub struct RefsQuery {
    pub q: Option<String>,
}

#[derive(Debug)]
pub struct RefDto {
    pub kind: String,
    pub name: String,
    pub short_sha: String,
}

#[derive(Debug)]
pub struct RefsResponse {
    pub refs: Vec<RefDto>,
}

impl Ranked for ForgeRef {
    open spec fn ranks_before(&self, other: &Self) -> bool {
        if self.kind == other.kind {
            text::lex_le(self.name@, other.name@)
        } else {
            self.kind == RefKind::Branch
        }
    }

    proof fn rank_total(a: &Self, b: &Self) {
        text::lex_le_total(a.name@, b.name@);
    }

    proof fn rank_transitive(a: &Self, b: &Self, c: &Self) {
        if a.kind == b.kind && b.kind == c.kind {
            text::lex_le_transitive(a.name@, b.name@, c.name@);
        }
    }

    fn may_precede(&self, other: &Self) -> (r: bool) {
        if self.kind == other.kind {
            text::str_le(self.name.as_str(), other.name.as_str())
        } else {
            self.kind == RefKind::Branch
        }
    }
}

/// The first seven characters.
pub open spec fn short(sha: Seq<char>) -> Seq<char> {
    if sha.len() <= 7 {
        sha
    } else {
        sha.take(7)
    }
}

fn short_sha(sha: &str) -> (r: String)
    ensures
        r@ == short(sha@),
{
    if sha.unicode_len() <= 7 {
        sha.to_owned()
    } else {
        let s = sha.substring_char(0, 7);
        assert(s@ =~= sha@.take(7));
        s.to_owned()
    }
}

pub open spec fn ref_shown(d: RefDto, r: ForgeRef) -> bool {
    &&& d.kind@ == (match r.kind {
        RefKind::Branch => "branch"@,
        RefKind::Tag => "tag"@,
    })
    &&& d.name == r.name
    &&& d.short_sha@ == short(r.sha@)
}

/// The branches and tags as the picker lists them: branches first, each group by name, whatever
/// order the forge returned them in.
pub fn list_refs(listed: Vec<ForgeRef>) -> (r: RefsResponse)
    ensures
        r.refs@.len() == listed@.len(),
        r.refs@.len() == sort::sorted(listed@).len(),
        forall|i: int| 0 <= i < r.refs@.len() ==> ref_shown(#[trigger] r.refs@[i], sort::sorted(listed@)[i]),
{
    proof {
        sort::sorted_is_ordered_permutation(listed@);
    }
    let ordered = sort::sort(listed);
    let mut out: Vec<RefDto> = Vec::new();
    for x in it: ordered
        invariant
            it.seq() == ordered@,
            out@.len() == it.index(),
            forall|i: int| 0 <= i < it.index() ==> ref_shown(#[trigger] out@[i], ordered@[i]),
    {
        let kind: &'static str = match x.kind {
            RefKind::Branch => "branch",
            RefKind::Tag => "tag",
        };
        let short_sha = short_sha(x.sha.as_str());
        out.push(RefDto { kind: kind.to_owned(), name: x.name, short_sha });
    }
    RefsResponse { refs: out }
}

/// A ref is shown by its kind, its name and the first seven characters of its commit.
pub proof fn refs_are_shown_as_they_are(d: RefDto, r: ForgeRef)
    requires
        ref_shown(d, r),
    ensures
        r.kind is Branch ==> d.kind@ == "branch"@,
        r.kind is Tag ==> d.kind@ == "tag"@,
        d.name == r.name,
        d.short_sha@.len() == if r.sha@.len() < 7 {
            r.sha@.len() as int
        } else {
            7int
        },
        forall|i: int| 0 <= i < d.short_sha@.len() ==> d.short_sha@[i] == r.sha@[i],
{
}

/// A catalog holds nothing but entries of the files that were read, in the order of the files: one
/// more file adds its own entry behind the others, or none where it is gone.
pub proof fn entries_stand_in_the_order_of_their_files(paths: Seq<PathName>, reads: Seq<CatalogRead>, read: CatalogRead)
    requires
        reads.len() < paths.len(),
    ensures
        entries_of(paths, Seq::empty()).len() == 0,
        entry_of(paths[reads.len() as int].0@, read) matches Ok(Some(e)) ==> entries_of(paths, reads.push(read))
            == entries_of(paths, reads).push(e),
        !(entry_of(paths[reads.len() as int].0@, read) matches Ok(Some(_))) ==> entries_of(paths, reads.push(read))
            == entries_of(paths, reads),
{
    assert(reads.push(read).drop_last() =~= reads);
}

} // verus!
