//! The pipeline and step documents the server admits and persists.

use crate::json::{Json, JsonView};
use crate::text;
use vstd::prelude::*;

verus! {

/// A privilege escalation a step asks for above the hardened baseline.
#[derive(Debug)]
pub struct StepSecurity {
    pub run_as_root: bool,
    pub add_capabilities: Vec<String>,
    pub privileged: bool,
}

impl StepSecurity {
    pub open spec fn baseline(self) -> bool {
        !self.run_as_root && self.add_capabilities@.len() == 0 && !self.privileged
    }

    /// Whether nothing above the baseline is asked for.
    pub fn is_baseline(&self) -> (r: bool)
        ensures
            r == self.baseline(),
    {
        !self.run_as_root && self.add_capabilities.len() == 0 && !self.privileged
    }
}

/// The escalations an executor may apply.
#[derive(Debug)]
pub struct AdmittedGrants {
    pub run_as_root: bool,
    pub add_capabilities: Vec<String>,
    pub privileged: bool,
}

/// The mathematical model of [`AdmittedGrants`].
pub struct GrantsView {
    pub run_as_root: bool,
    pub add_capabilities: Seq<Seq<char>>,
    pub privileged: bool,
}

impl View for AdmittedGrants {
    type V = GrantsView;

    open spec fn view(&self) -> GrantsView {
        GrantsView {
            run_as_root: self.run_as_root,
            add_capabilities: text::views(self.add_capabilities@),
            privileged: self.privileged,
        }
    }
}

impl AdmittedGrants {
    /// A copy of the grants.
    pub fn copy(&self) -> (r: AdmittedGrants)
        ensures
            r@ == self@,
    {
        AdmittedGrants {
            run_as_root: self.run_as_root,
            add_capabilities: text::clone_strings(&self.add_capabilities),
            privileged: self.privileged,
        }
    }
}

/// The restricted baseline: no grants.
pub open spec fn no_grants() -> GrantsView {
    GrantsView { run_as_root: false, add_capabilities: Seq::<Seq<char>>::empty(), privileged: false }
}

impl Default for AdmittedGrants {
    fn default() -> (r: AdmittedGrants)
        ensures
            r@ == no_grants(),
    {
        let r = AdmittedGrants { run_as_root: false, add_capabilities: Vec::new(), privileged: false };
        assert(r@.add_capabilities =~= no_grants().add_capabilities);
        r
    }
}

/// A backing container a step declares. `rest` holds what only the executor reads.
#[derive(Debug)]
pub struct ServiceSpec {
    pub image: String,
    pub ports: Vec<u16>,
    pub rest: Json,
}

/// The mathematical model of a [`ServiceSpec`].
pub struct ServiceView {
    pub image: Seq<char>,
    pub ports: Seq<u16>,
    pub rest: JsonView,
}

impl View for ServiceSpec {
    type V = ServiceView;

    open spec fn view(&self) -> ServiceView {
        ServiceView { image: self.image@, ports: self.ports@, rest: self.rest@ }
    }
}

pub open spec fn service_views(v: Seq<ServiceSpec>) -> Seq<ServiceView> {
    v.map_values(|s: ServiceSpec| s@)
}

/// Copies of a list of port numbers.
pub fn copy_ports(v: &Vec<u16>) -> (r: Vec<u16>)
    ensures
        r@ == v@,
{
    let r = v.clone();
    assert(r@ =~= v@);
    r
}

/// Copies of a list of services.
pub fn copy_services(v: &Vec<ServiceSpec>) -> (r: Vec<ServiceSpec>)
    ensures
        service_views(r@) == service_views(v@),
{
    let mut out: Vec<ServiceSpec> = Vec::new();
    let mut i: usize = 0;
    while i < v.len()
        invariant
            i <= v@.len(),
            out@.len() == i,
            forall|j: int| 0 <= j < i ==> (#[trigger] out@[j])@ == v@[j]@,
        decreases v@.len() - i,
    {
        out.push(
            ServiceSpec { image: v[i].image.clone(), ports: copy_ports(&v[i].ports), rest: v[i].rest.copy() },
        );
        i = i + 1;
    }
    assert(service_views(out@) =~= service_views(v@));
    out
}

pub open spec fn pair_views(v: Seq<(String, String)>) -> Seq<(Seq<char>, Seq<char>)> {
    v.map_values(|p: (String, String)| (p.0@, p.1@))
}

/// Copies of a list of name-value pairs.
pub fn copy_pairs(v: &Vec<(String, String)>) -> (r: Vec<(String, String)>)
    ensures
        r@ == v@,
{
    let mut out: Vec<(String, String)> = Vec::new();
    let mut i: usize = 0;
    while i < v.len()
        invariant
            i <= v@.len(),
            out@.len() == i,
            forall|j: int| 0 <= j < i ==> (#[trigger] out@[j]) == v@[j],
        decreases v@.len() - i,
    {
        out.push((v[i].0.clone(), v[i].1.clone()));
        i = i + 1;
    }
    assert(out@ =~= v@);
    out
}

pub open spec fn opt_json(o: Option<Json>) -> Option<JsonView> {
    match o {
        Some(j) => Some(j@),
        None => None,
    }
}

/// The checkout a clone step performs. The URL and the credential are resolved at launch.
#[derive(Debug)]
pub struct CloneConfig {
    pub owner: String,
    pub name: String,
    pub sha: String,
    pub depth_full: bool,
    pub submodules: bool,
    pub lfs: bool,
    pub read_only: bool,
    pub url: String,
    pub credential: Option<String>,
}

/// The mathematical model of a [`CloneConfig`].
pub struct CloneView {
    pub owner: Seq<char>,
    pub name: Seq<char>,
    pub sha: Seq<char>,
    pub depth_full: bool,
    pub submodules: bool,
    pub lfs: bool,
    pub read_only: bool,
    pub url: Seq<char>,
    pub credential: Option<Seq<char>>,
}

impl View for CloneConfig {
    type V = CloneView;

    open spec fn view(&self) -> CloneView {
        CloneView {
            owner: self.owner@,
            name: self.name@,
            sha: self.sha@,
            depth_full: self.depth_full,
            submodules: self.submodules,
            lfs: self.lfs,
            read_only: self.read_only,
            url: self.url@,
            credential: text::opt_view(self.credential),
        }
    }
}

/// The image build a build step performs. The registry credential is resolved at launch.
#[derive(Debug)]
pub struct BuildConfig {
    pub context: String,
    pub dockerfile: String,
    pub image: String,
    pub repo_owner: String,
    pub repo_name: String,
    pub push: bool,
    pub insecure_push: bool,
    pub registry_auth_json: Option<String>,
    pub derived_auth: Option<String>,
}

/// The mathematical model of a [`BuildConfig`].
pub struct BuildView {
    pub context: Seq<char>,
    pub dockerfile: Seq<char>,
    pub image: Seq<char>,
    pub repo_owner: Seq<char>,
    pub repo_name: Seq<char>,
    pub push: bool,
    pub insecure_push: bool,
    pub registry_auth_json: Option<Seq<char>>,
    pub derived_auth: Option<Seq<char>>,
}

impl View for BuildConfig {
    type V = BuildView;

    open spec fn view(&self) -> BuildView {
        BuildView {
            context: self.context@,
            dockerfile: self.dockerfile@,
            image: self.image@,
            repo_owner: self.repo_owner@,
            repo_name: self.repo_name@,
            push: self.push,
            insecure_push: self.insecure_push,
            registry_auth_json: text::opt_view(self.registry_auth_json),
            derived_auth: text::opt_view(self.derived_auth),
        }
    }
}

/// What an executor launches for one step. `artifacts`, `resources` and `matrix_values` are
/// carried through unread.
#[derive(Debug)]
pub struct StepSpec {
    pub image: String,
    pub command: Vec<String>,
    pub env: Vec<(String, String)>,
    pub secrets: Vec<String>,
    pub run_as_root: bool,
    pub add_capabilities: Vec<String>,
    pub privileged: bool,
    pub timeout_seconds: Option<u32>,
    pub workspace_inputs: Vec<String>,
    pub workspace_outputs: Vec<String>,
    pub clone: Option<CloneConfig>,
    pub build: Option<BuildConfig>,
    pub artifacts: Json,
    pub placement_profiles: Vec<String>,
    pub resources: Json,
    pub k8s_overlay: Option<Json>,
    pub oidc_token: Option<String>,
    pub services: Vec<ServiceSpec>,
    pub uses: Vec<String>,
    pub matrix_values: Json,
}

/// The mathematical model of a [`StepSpec`].
#[verifier::ext_equal]
pub struct SpecView {
    pub image: Seq<char>,
    pub command: Seq<Seq<char>>,
    pub env: Seq<(Seq<char>, Seq<char>)>,
    pub secrets: Seq<Seq<char>>,
    pub grants: GrantsView,
    pub timeout_seconds: Option<u32>,
    pub workspace_inputs: Seq<Seq<char>>,
    pub workspace_outputs: Seq<Seq<char>>,
    pub clone: Option<CloneView>,
    pub build: Option<BuildView>,
    pub artifacts: JsonView,
    pub placement_profiles: Seq<Seq<char>>,
    pub resources: JsonView,
    pub k8s_overlay: Option<JsonView>,
    pub oidc_token: Option<Seq<char>>,
    pub services: Seq<ServiceView>,
    pub uses: Seq<Seq<char>>,
    pub matrix_values: JsonView,
}

impl View for StepSpec {
    type V = SpecView;

    open spec fn view(&self) -> SpecView {
        SpecView {
            image: self.image@,
            command: text::views(self.command@),
            env: pair_views(self.env@),
            secrets: text::views(self.secrets@),
            grants: GrantsView {
                run_as_root: self.run_as_root,
                add_capabilities: text::views(self.add_capabilities@),
                privileged: self.privileged,
            },
            timeout_seconds: self.timeout_seconds,
            workspace_inputs: text::views(self.workspace_inputs@),
            workspace_outputs: text::views(self.workspace_outputs@),
            clone: match self.clone {
                Some(c) => Some(c@),
                None => None,
            },
            build: match self.build {
                Some(b) => Some(b@),
                None => None,
            },
            artifacts: self.artifacts@,
            placement_profiles: text::views(self.placement_profiles@),
            resources: self.resources@,
            k8s_overlay: opt_json(self.k8s_overlay),
            oidc_token: text::opt_view(self.oidc_token),
            services: service_views(self.services@),
            uses: text::views(self.uses@),
            matrix_values: self.matrix_values@,
        }
    }
}

/// What a clone step declares.
#[derive(Debug)]
pub struct CloneDirective {
    pub full_depth: bool,
    pub submodules: bool,
    pub lfs: bool,
}

/// What a build step declares.
#[derive(Debug)]
pub struct BuildDirective {
    pub context: String,
    pub dockerfile: String,
    pub image: String,
    pub push: bool,
}

/// What the target environment's rules answered to a step's privilege request.
#[derive(Debug)]
pub enum GrantRuling {
    Admitted(AdmittedGrants),
    Rejected(Vec<String>),
}

/// One compiled step. `ruling` is what the target environment's rules, where there are any,
/// answered to `security`.
#[derive(Debug)]
pub struct IrStep {
    pub id: String,
    pub image: String,
    pub command: Vec<String>,
    pub env: Vec<(String, String)>,
    pub secrets: Vec<String>,
    pub needs: Vec<String>,
    pub inputs: Option<Vec<String>>,
    pub outputs: Option<Vec<String>>,
    pub security: Option<StepSecurity>,
    pub ruling: GrantRuling,
    pub timeout: Option<u32>,
    pub gate: Option<String>,
    pub gate_after: Option<u32>,
    pub clone: Option<CloneDirective>,
    pub build: Option<BuildDirective>,
    pub artifacts: Json,
    pub placement_profiles: Vec<String>,
    pub resources: Json,
    pub k8s_overlay: Option<Json>,
    pub services: Vec<ServiceSpec>,
    pub uses: Vec<String>,
    pub matrix_values: Json,
}

/// A declared concurrency group. `resolved` is what interpolating the group's template against
/// the run's inputs and event gave.
#[derive(Debug)]
pub struct Concurrency {
    pub group: String,
    pub policy: String,
    pub resolved: Result<String, String>,
}

/// A compiled pipeline.
#[derive(Debug)]
pub struct PipelineIr {
    pub ir_version: u32,
    pub name: Option<String>,
    pub environment: Option<String>,
    pub concurrency: Option<Concurrency>,
    pub steps: Vec<IrStep>,
}

/// An opt-in retry policy.
#[derive(Debug)]
pub struct Retry {
    pub max: u32,
}

/// One step of an inline pipeline.
#[derive(Debug)]
pub struct StepDto {
    pub id: String,
    pub image: String,
    pub command: Vec<String>,
    pub env: Vec<(String, String)>,
    pub secrets: Vec<String>,
    pub needs: Vec<String>,
    pub inputs: Option<Vec<String>>,
    pub outputs: Option<Vec<String>>,
    pub security: Option<StepSecurity>,
    pub retry: Option<Retry>,
    pub timeout: Option<u32>,
    pub placement_profiles: Vec<String>,
    pub resources: Json,
    pub k8s_overlay: Option<Json>,
    pub services: Vec<ServiceSpec>,
    pub uses: Vec<String>,
}

/// An inline pipeline.
#[derive(Debug)]
pub struct PipelineDto {
    pub ir_version: u32,
    pub interface: Json,
    pub budget: Option<u32>,
    pub steps: Vec<StepDto>,
}

/// A request to run an inline pipeline at once.
#[derive(Debug)]
pub struct CreateRunRequest {
    pub pipeline: PipelineDto,
    pub params: Vec<(String, Json)>,
    pub reason: Option<String>,
}

/// A declared path list; the whole workspace where nothing is declared.
pub open spec fn declared_outputs(o: Option<Vec<String>>) -> Seq<Seq<char>> {
    match o {
        Some(v) => text::views(v@),
        None => Seq::<Seq<char>>::empty(),
    }
}

/// A copy of a declared path list; empty where nothing is declared.
pub fn outputs_or_whole(o: &Option<Vec<String>>) -> (r: Vec<String>)
    ensures
        text::views(r@) == declared_outputs(*o),
{
    match o {
        Some(v) => text::clone_strings(v),
        None => {
            let r: Vec<String> = Vec::new();
            assert(text::views(r@) =~= Seq::<Seq<char>>::empty());
            r
        },
    }
}

/// A step asks for nothing above the baseline exactly where it is not to run as root, adds no
/// capability and is not privileged.
pub proof fn the_baseline_asks_for_nothing(s: StepSecurity)
    ensures
        s.run_as_root || s.privileged || s.add_capabilities@.len() > 0 ==> !s.baseline(),
        !s.run_as_root && !s.privileged && s.add_capabilities@.len() == 0 ==> s.baseline(),
{
}

/// Declared paths are kept in their order, and a step that declares none has none.
pub proof fn declared_paths_are_kept(o: Option<Vec<String>>, i: int)
    ensures
        o is None ==> declared_outputs(o).len() == 0,
        o matches Some(v) ==> declared_outputs(o).len() == v@.len() && (0 <= i < v@.len() ==> declared_outputs(o)[i] == v@[i]@),
{
}

} // verus!
