//! Git refs and pipeline names: how a caller's spelling becomes the ref or path that is read.

use crate::text;
use vstd::prelude::*;

verus! {

/// In-repo directory holding pipeline definitions.
pub const CONFIG_DIR: &'static str = ".scarab";

/// The ref a catalog query reads at when the caller names none.
pub fn default_pipeline_ref() -> (r: String)
    ensures
        r@ == "HEAD"@,
{
    "HEAD".to_owned()
}

/// A bound repository registers its webhook unless the caller says otherwise.
pub fn default_true() -> (r: bool)
    ensures
        r,
{
    true
}

/// A `.yaml` or `.yml` path.
pub open spec fn pipeline_file(path: Seq<char>) -> bool {
    text::has_suffix(path, ".yaml"@) || text::has_suffix(path, ".yml"@)
}

/// Is `path` a pipeline definition file?
pub fn is_pipeline_file(path: &str) -> (r: bool)
    ensures
        r == pipeline_file(path@),
{
    text::ends_with(path, ".yaml") || text::ends_with(path, ".yml")
}

pub open spec fn unless<A>(o: Option<A>, default: A) -> A {
    match o {
        Some(a) => a,
        None => default,
    }
}

/// A path without the configuration directory in front and the extension behind.
pub open spec fn bare_name(path: Seq<char>) -> Seq<char> {
    let p = unless(text::without_prefix(path, ".scarab/"@), path);
    match text::without_suffix(p, ".yaml"@) {
        Some(n) => n,
        None => unless(text::without_suffix(p, ".yml"@), p),
    }
}

/// The bare selection name of a pipeline path.
pub fn bare_pipeline_name(path: &str) -> (r: String)
    ensures
        r@ == bare_name(path@),
{
    let p = match text::strip_prefix(path, ".scarab/") {
        Some(rest) => rest,
        None => path.to_owned(),
    };
    match text::strip_suffix(p.as_str(), ".yaml") {
        Some(n) => n,
        None => match text::strip_suffix(p.as_str(), ".yml") {
            Some(n) => n,
            None => p,
        },
    }
}

/// Forty lower-case hexadecimal digits.
pub open spec fn raw_sha(s: Seq<char>) -> bool {
    s.len() == 40 && forall|i: int| 0 <= i < s.len() ==> lower_hex(#[trigger] s[i])
}

pub open spec fn lower_hex(c: char) -> bool {
    '0' <= c <= '9' || 'a' <= c <= 'f'
}

/// The symbolic ref a dispatch names: a full ref or a raw commit stays as it is, anything else
/// is a branch.
pub open spec fn canonical(r: Seq<char>) -> Seq<char> {
    if text::has_prefix(r, "refs/"@) || raw_sha(r) {
        r
    } else {
        "refs/heads/"@ + r
    }
}

/// Whether `s` is a raw commit hash.
fn is_raw_sha(s: &str) -> (r: bool)
    ensures
        r == raw_sha(s@),
{
    let chars = text::to_chars(s);
    if chars.len() != 40 {
        return false;
    }
    let mut i: usize = 0;
    while i < chars.len()
        invariant
            chars@ == s@,
            i <= chars@.len(),
            forall|j: int| 0 <= j < i ==> lower_hex(#[trigger] s@[j]),
        decreases chars@.len() - i,
    {
        let c: char = chars[i];
        if !(('0' <= c && c <= '9') || ('a' <= c && c <= 'f')) {
            assert(!lower_hex(s@[i as int]));
            return false;
        }
        i = i + 1;
    }
    true
}

/// Canonicalize a caller's dispatch ref into a symbolic ref.
pub fn canonicalize_ref(git_ref: &str) -> (r: String)
    ensures
        r@ == canonical(git_ref@),
{
    if text::starts_with(git_ref, "refs/") || is_raw_sha(git_ref) {
        git_ref.to_owned()
    } else {
        let mut s = "refs/heads/".to_owned();
        s.append(git_ref);
        s
    }
}

/// Canonicalizing twice is canonicalizing once.
pub proof fn canonical_is_idempotent(r: Seq<char>)
    ensures
        canonical(canonical(r)) == canonical(r),
{
    reveal_strlit("refs/");
    reveal_strlit("refs/heads/");
    if !text::has_prefix(r, "refs/"@) && !raw_sha(r) {
        assert(("refs/heads/"@ + r).subrange(0, 5) =~= "refs/"@);
    }
}

/// A raw commit never becomes a branch ref, and a branch never stays bare.
pub proof fn canonical_separates_commits_from_branches(r: Seq<char>)
    ensures
        raw_sha(r) ==> canonical(r) == r && !text::has_prefix(canonical(r), "refs/"@),
        !raw_sha(r) ==> text::has_prefix(canonical(r), "refs/"@),
{
    reveal_strlit("refs/");
    reveal_strlit("refs/heads/");
    if raw_sha(r) {
        assert(lower_hex(r[0]));
        if text::has_prefix(r, "refs/"@) {
            assert(r.subrange(0, 5)[0] == 'r');
        }
    } else if !text::has_prefix(r, "refs/"@) {
        assert(("refs/heads/"@ + r).subrange(0, 5) =~= "refs/"@);
    }
}

/// The paths a dispatch's pipeline identifier may name, in the order they are tried.
pub open spec fn candidates(pipeline: Seq<char>) -> Seq<Seq<char>> {
    if pipeline.contains('/') || pipeline_file(pipeline) {
        seq![pipeline]
    } else {
        seq![".scarab/"@ + pipeline + ".yaml"@, ".scarab/"@ + pipeline + ".yml"@]
    }
}

/// A path is looked for where it says; a bare name under the configuration directory, with either
/// extension and the longer one first.
pub proof fn bare_names_are_looked_for_in_the_configuration(pipeline: Seq<char>)
    ensures
        pipeline.contains('/') || text::has_suffix(pipeline, ".yaml"@) || text::has_suffix(pipeline, ".yml"@)
            ==> candidates(pipeline) =~= seq![pipeline],
        !(pipeline.contains('/') || text::has_suffix(pipeline, ".yaml"@) || text::has_suffix(pipeline, ".yml"@))
            ==> candidates(pipeline) =~= seq![".scarab/"@ + pipeline + ".yaml"@, ".scarab/"@ + pipeline + ".yml"@],
{
}

/// A bare name stands for a branch; a full ref and a raw commit stand for themselves.
pub proof fn bare_refs_are_branches(r: Seq<char>)
    ensures
        text::has_prefix(r, "refs/"@) || (r.len() == 40 && forall|i: int|
            0 <= i < r.len() ==> ('0' <= #[trigger] r[i] <= '9' || 'a' <= r[i] <= 'f')) ==> canonical(r) == r,
        !text::has_prefix(r, "refs/"@) && !(r.len() == 40 && forall|i: int|
            0 <= i < r.len() ==> ('0' <= #[trigger] r[i] <= '9' || 'a' <= r[i] <= 'f')) ==> canonical(r) == "refs/heads/"@
            + r,
{
    if r.len() == 40 && forall|i: int| 0 <= i < r.len() ==> ('0' <= #[trigger] r[i] <= '9' || 'a' <= r[i] <= 'f') {
        assert forall|i: int| 0 <= i < r.len() implies lower_hex(#[trigger] r[i]) by {}
    }
    if raw_sha(r) {
        assert forall|i: int| 0 <= i < r.len() implies ('0' <= #[trigger] r[i] <= '9' || 'a' <= r[i] <= 'f') by {
            assert(lower_hex(r[i]));
        }
    }
}

/// Candidate paths a dispatch's `pipeline` identifier resolves to.
pub fn dispatch_candidate_paths(pipeline: &str) -> (r: Vec<String>)
    ensures
        text::views(r@) == candidates(pipeline@),
{
    if has_slash(pipeline) || is_pipeline_file(pipeline) {
        let r = vec![pipeline.to_owned()];
        assert(text::views(r@) =~= candidates(pipeline@));
        r
    } else {
        let mut yaml = ".scarab/".to_owned();
        yaml.append(pipeline);
        yaml.append(".yaml");
        let mut yml = ".scarab/".to_owned();
        yml.append(pipeline);
        yml.append(".yml");
        let r = vec![yaml, yml];
        assert(text::views(r@) =~= candidates(pipeline@));
        r
    }
}

fn has_slash(s: &str) -> (r: bool)
    ensures
        r == s@.contains('/'),
{
    let chars = text::to_chars(s);
    let mut i: usize = 0;
    while i < chars.len()
        invariant
            chars@ == s@,
            i <= chars@.len(),
            forall|j: int| 0 <= j < i ==> s@[j] != '/',
        decreases chars@.len() - i,
    {
        if chars[i] == '/' {
            return true;
        }
        i = i + 1;
    }
    false
}

/// What the catalog reports can be dispatched: the bare name of a direct child of the
/// configuration directory leads back to that child.
pub proof fn bare_name_is_dispatchable(name: Seq<char>)
    requires
        !name.contains('/'),
        !pipeline_file(name),
    ensures
        candidates(bare_name(".scarab/"@ + name + ".yaml"@)).contains(".scarab/"@ + name + ".yaml"@),
        candidates(bare_name(".scarab/"@ + name + ".yml"@)).contains(".scarab/"@ + name + ".yml"@),
{
    reveal_strlit(".scarab/");
    reveal_strlit(".yaml");
    reveal_strlit(".yml");
    let yaml = ".scarab/"@ + name + ".yaml"@;
    let yml = ".scarab/"@ + name + ".yml"@;
    assert(yaml.subrange(0, 8) =~= ".scarab/"@);
    assert(yml.subrange(0, 8) =~= ".scarab/"@);
    let py = yaml.subrange(8, yaml.len() as int);
    let pm = yml.subrange(8, yml.len() as int);
    assert(py =~= name + ".yaml"@);
    assert(pm =~= name + ".yml"@);
    assert(py.subrange(py.len() - 5, py.len() as int) =~= ".yaml"@);
    assert(pm.subrange(pm.len() - 4, pm.len() as int) =~= ".yml"@);
    assert(py.subrange(0, py.len() - 5) =~= name);
    assert(pm.subrange(0, pm.len() - 4) =~= name);
    assert(!text::has_suffix(pm, ".yaml"@)) by {
        if text::has_suffix(pm, ".yaml"@) {
            let tail = pm.subrange(pm.len() - 5, pm.len() as int);
            assert(tail[1] == pm[pm.len() - 4]);
            assert(tail[1] == 'y');
            assert(pm[pm.len() - 4] == '.');
        }
    }
    assert(candidates(name)[0] == yaml);
    assert(candidates(name)[1] == yml);
}

/// A pipeline's name is its path in the configuration directory without the extension, and a path
/// outside of it without the extension alone.
pub proof fn pipelines_go_by_their_bare_name(name: Seq<char>)
    ensures
        bare_name(".scarab/"@ + name + ".yaml"@) == name,
        bare_name(".scarab/"@ + name + ".yml"@) == name,
        !text::has_prefix(name + ".yaml"@, ".scarab/"@) ==> bare_name(name + ".yaml"@) == name,
        !text::has_prefix(name + ".yml"@, ".scarab/"@) ==> bare_name(name + ".yml"@) == name,
        !text::has_prefix(name, ".scarab/"@) && !text::has_suffix(name, ".yaml"@) && !text::has_suffix(name, ".yml"@)
            ==> bare_name(name) == name,
{
    reveal_strlit(".scarab/");
    reveal_strlit(".yaml");
    reveal_strlit(".yml");
    let py = name + ".yaml"@;
    let pm = name + ".yml"@;
    let yaml = ".scarab/"@ + name + ".yaml"@;
    let yml = ".scarab/"@ + name + ".yml"@;
    assert(yaml.subrange(0, 8) =~= ".scarab/"@);
    assert(yml.subrange(0, 8) =~= ".scarab/"@);
    assert(yaml.subrange(8, yaml.len() as int) =~= py);
    assert(yml.subrange(8, yml.len() as int) =~= pm);
    assert(py.subrange(py.len() - 5, py.len() as int) =~= ".yaml"@);
    assert(pm.subrange(pm.len() - 4, pm.len() as int) =~= ".yml"@);
    assert(py.subrange(0, py.len() - 5) =~= name);
    assert(pm.subrange(0, pm.len() - 4) =~= name);
    assert(!text::has_suffix(pm, ".yaml"@)) by {
        if text::has_suffix(pm, ".yaml"@) {
            let tail = pm.subrange(pm.len() - 5, pm.len() as int);
            assert(tail[1] == pm[pm.len() - 4]);
            assert(tail[1] == 'y');
            assert(pm[pm.len() - 4] == '.');
        }
    }
}

} // verus!
