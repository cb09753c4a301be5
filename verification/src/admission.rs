//! Admission: what an environment's rules let a run and its steps do. Everything fails closed:
//! a request that is not granted rejects the run, it is never downgraded.

use crate::errors::TriggerError;
use crate::event;
use crate::event::Event;
use crate::json::{Json, JsonView};
use crate::model;
use crate::model::{AdmittedGrants, GrantRuling, GrantsView, StepSecurity};
use crate::text;
use vstd::prelude::*;

verus! {

/// Where a secret lives.
#[derive(Debug)]
pub enum SecretScope {
    Org { org: String },
    Repo { org: String, repo: String },
    Environment { org: String, repo: String, environment: String },
}

/// The mathematical model of a [`SecretScope`].
pub enum SecretScopeView {
    Org { org: Seq<char> },
    Repo { org: Seq<char>, repo: Seq<char> },
    Environment { org: Seq<char>, repo: Seq<char>, environment: Seq<char> },
}

impl View for SecretScope {
    type V = SecretScopeView;

    open spec fn view(&self) -> SecretScopeView {
        match self {
            SecretScope::Org { org } => SecretScopeView::Org { org: org@ },
            SecretScope::Repo { org, repo } => SecretScopeView::Repo { org: org@, repo: repo@ },
            SecretScope::Environment { org, repo, environment } => SecretScopeView::Environment {
                org: org@,
                repo: repo@,
                environment: environment@,
            },
        }
    }
}

/// What an environment lets one image digest do.
#[derive(Debug)]
pub struct ImageGrant {
    pub image_digest: String,
    pub privileged: bool,
    pub capabilities: Vec<String>,
}

/// An environment's protection rules.
#[derive(Debug)]
pub struct ProtectionRules {
    pub approvers: Vec<String>,
    pub wait_timer: u64,
    pub allowed_refs: Vec<String>,
    pub concurrency: u32,
    pub secret_scope: SecretScope,
    pub oidc_subject: String,
    pub privileged_images: Vec<ImageGrant>,
    pub permit_k8s_overlay: bool,
    pub require_reason: bool,
}

pub open spec fn grants_result(r: Result<AdmittedGrants, Vec<String>>) -> Result<GrantsView, Seq<Seq<char>>> {
    match r {
        Ok(g) => Ok(g@),
        Err(v) => Err(text::views(v@)),
    }
}

pub open spec fn overlay_result(r: Result<Option<Json>, Vec<String>>) -> Result<Option<JsonView>, Seq<Seq<char>>> {
    match r {
        Ok(o) => Ok(model::opt_json(o)),
        Err(v) => Err(text::views(v@)),
    }
}

/// The grants of a step: the baseline where it asks for nothing; with an environment what its
/// rules answered; without one only the self-service root user.
pub open spec fn step_grants(ruling: Option<GrantRuling>, security: Option<StepSecurity>) -> Result<
    GrantsView,
    Seq<Seq<char>>,
> {
    match security {
        None => Ok(model::no_grants()),
        Some(sec) => if sec.baseline() {
            Ok(model::no_grants())
        } else {
            match ruling {
                Some(GrantRuling::Admitted(g)) => Ok(g@),
                Some(GrantRuling::Rejected(v)) => Err(text::views(v@)),
                None => if sec.privileged || sec.add_capabilities@.len() > 0 {
                    Err(
                        seq![
                            "governed grants (add-capabilities/privileged) require a target Environment"@,
                        ],
                    )
                } else {
                    Ok(GrantsView { run_as_root: sec.run_as_root, ..model::no_grants() })
                },
            }
        },
    }
}

/// Admit a step's privilege request against the run's target environment.
pub fn admit_step_grants(ruling: Option<&GrantRuling>, security: Option<&StepSecurity>) -> (r: Result<
    AdmittedGrants,
    Vec<String>,
>)
    ensures
        grants_result(r) == step_grants(
            match ruling {
                Some(g) => Some(*g),
                None => None,
            },
            match security {
                Some(s) => Some(*s),
                None => None,
            },
        ),
{
    let sec = match security {
        Some(s) => s,
        None => {
            return Ok(AdmittedGrants::default());
        },
    };
    if sec.is_baseline() {
        return Ok(AdmittedGrants::default());
    }
    match ruling {
        Some(GrantRuling::Admitted(g)) => Ok(g.copy()),
        Some(GrantRuling::Rejected(v)) => Err(text::clone_strings(v)),
        None => if sec.privileged || sec.add_capabilities.len() > 0 {
            let v = vec![
                "governed grants (add-capabilities/privileged) require a target Environment".to_owned(),
            ];
            assert(text::views(v@) =~= seq![
                "governed grants (add-capabilities/privileged) require a target Environment"@,
            ]);
            Err(v)
        } else {
            let mut g = AdmittedGrants::default();
            g.run_as_root = sec.run_as_root;
            Ok(g)
        },
    }
}

/// Without an environment no step is ever privileged and none adds a capability.
pub proof fn ungoverned_steps_stay_in_the_sandbox(security: Option<StepSecurity>)
    ensures
        step_grants(None, security) matches Ok(g) ==> !g.privileged && g.add_capabilities.len() == 0,
{
}

/// A step is granted what the rules of its environment admit, and nothing where it asks for nothing.
/// Where no rules are, the root user is granted to whoever asks and anything beyond it is refused.
pub proof fn grants_follow_the_rules(ruling: Option<GrantRuling>, security: Option<StepSecurity>)
    ensures
        ({
            let asks = security matches Some(s) && (s.run_as_root || s.privileged || s.add_capabilities@.len() > 0);
            let r = step_grants(ruling, security);
            if !asks {
                r matches Ok(g) && !g.run_as_root && !g.privileged && g.add_capabilities.len() == 0
            } else {
                match ruling {
                    Some(GrantRuling::Admitted(g)) => r == Ok::<GrantsView, Seq<Seq<char>>>(g@),
                    Some(GrantRuling::Rejected(v)) => r matches Err(m) && m =~= v@.map_values(|s: String| s@),
                    None => if security->0.privileged || security->0.add_capabilities@.len() > 0 {
                        r is Err
                    } else {
                        r matches Ok(g) && g.run_as_root && !g.privileged && g.add_capabilities.len() == 0
                    },
                }
            }
        }),
{
}

/// A raw overlay passes unchanged where the rules permit it and is refused everywhere else.
pub proof fn overlays_pass_only_where_permitted(permitted: bool, overlay: Option<Json>)
    ensures
        step_overlay(permitted, overlay) is Err <==> overlay is Some && !permitted,
        step_overlay(permitted, overlay) matches Ok(o) ==> (o is Some <==> overlay is Some) && (overlay is Some ==> o
            == Some(overlay->0@)),
{
}

pub open spec fn overlay_refusal() -> Seq<char> {
    "raw `k8s_overlay` requires a target Environment that permits raw overlays (set `permit_k8s_overlay` on the environment)"@
}

/// A raw overlay is admitted only by an environment that permits raw overlays.
pub open spec fn step_overlay(permitted: bool, overlay: Option<Json>) -> Result<Option<JsonView>, Seq<Seq<char>>> {
    match overlay {
        None => Ok(None),
        Some(o) => if permitted {
            Ok(Some(o@))
        } else {
            Err(seq![overlay_refusal()])
        },
    }
}

pub open spec fn permits_overlay(protection: Option<ProtectionRules>) -> bool {
    protection is Some && protection->0.permit_k8s_overlay
}

/// Admit a step's raw pod overlay against the target environment.
pub fn admit_k8s_overlay(protection: Option<&ProtectionRules>, overlay: Option<&Json>) -> (r: Result<
    Option<Json>,
    Vec<String>,
>)
    ensures
        overlay_result(r) == step_overlay(
            protection is Some && protection->0.permit_k8s_overlay,
            match overlay {
                Some(o) => Some(*o),
                None => None,
            },
        ),
{
    let o = match overlay {
        Some(o) => o,
        None => {
            return Ok(None);
        },
    };
    let permitted = match protection {
        Some(p) => p.permit_k8s_overlay,
        None => false,
    };
    if permitted {
        Ok(Some(o.copy()))
    } else {
        let v = vec![
            "raw `k8s_overlay` requires a target Environment that permits raw overlays (set `permit_k8s_overlay` on the environment)".to_owned(),
        ];
        assert(text::views(v@) =~= seq![overlay_refusal()]);
        Err(v)
    }
}

/// Governance of a run, resolved once from its `environment:` reference. Referencing an
/// environment makes a run a deploy; `protection` is there only when that environment is
/// defined.
#[derive(Debug)]
pub enum RunGovernance {
    Ungoverned,
    Governed { environment: String, locked_out: bool, protection: Option<ProtectionRules> },
}

impl RunGovernance {
    pub open spec fn rules(self) -> Option<ProtectionRules> {
        match self {
            RunGovernance::Governed { environment, locked_out, protection } => protection,
            RunGovernance::Ungoverned => None,
        }
    }

    pub open spec fn is_locked_out(self) -> bool {
        self matches RunGovernance::Governed { locked_out, .. } && locked_out
    }

    /// The resolved protection rules, if the target environment is defined.
    pub fn protection(&self) -> (r: Option<&ProtectionRules>)
        ensures
            match r {
                Some(p) => self.rules() == Some(*p),
                None => self.rules() is None,
            },
    {
        match self {
            RunGovernance::Governed { environment: _, locked_out: _, protection } => protection.as_ref(),
            RunGovernance::Ungoverned => None,
        }
    }

    /// Whether a fork pull request is locked out of the target environment's secrets and grants.
    pub fn locked_out(&self) -> (r: bool)
        ensures
            r == self.is_locked_out(),
    {
        match self {
            RunGovernance::Governed { environment: _, locked_out, protection: _ } => *locked_out,
            RunGovernance::Ungoverned => false,
        }
    }
}

/// Resolve a run's governance. `environment` is what the pipeline references; `lookup` is what
/// the environment store said of it (nothing, where no store is wired).
pub fn resolve_governance(
    environment: &Option<String>,
    lookup: Result<Option<ProtectionRules>, String>,
    event: &Event,
) -> (r: Result<RunGovernance, TriggerError>)
    ensures
        match (*environment, lookup) {
            (None, _) => r == Ok::<RunGovernance, TriggerError>(RunGovernance::Ungoverned),
            (Some(_), Err(e)) => r == Err::<RunGovernance, TriggerError>(TriggerError::Pipeline(e)),
            (Some(name), Ok(protection)) => r == Ok::<RunGovernance, TriggerError>(
                RunGovernance::Governed { environment: name, locked_out: event.fork_pr, protection },
            ),
        },
{
    let name = match environment {
        Some(name) => name,
        None => {
            return Ok(RunGovernance::Ungoverned);
        },
    };
    match lookup {
        Err(e) => Err(TriggerError::Pipeline(e)),
        Ok(protection) => {
            let policy = event::fork_policy(event, name.as_str());
            Ok(
                RunGovernance::Governed {
                    environment: name.clone(),
                    locked_out: policy.secrets_locked_out,
                    protection,
                },
            )
        },
    }
}

/// Whether the rules let the event's ref through: its symbolic ref where it has one, else only
/// an unrestricted environment.
pub open spec fn ref_admitted(rules: ProtectionRules, event: Event, ref_allowed: bool) -> bool {
    if event.protection_ref is Some {
        ref_allowed
    } else {
        rules.allowed_refs@.len() == 0
    }
}

/// An event with a symbolic ref is let through exactly where the rules allow that ref; one without is
/// let through only where the environment restricts no ref.
pub proof fn restricted_environments_ask_for_a_ref(rules: ProtectionRules, event: Event, ref_allowed: bool)
    ensures
        event.protection_ref is Some ==> ref_admitted(rules, event, ref_allowed) == ref_allowed,
        event.protection_ref is None ==> (ref_admitted(rules, event, ref_allowed) <==> rules.allowed_refs@.len() == 0),
{
}

/// Whether a run may be created. `ref_allowed` is the rules' answer on the event's symbolic
/// ref, `reason` their answer on the reason it carries. A disallowed ref is `Ok(false)`, which
/// the caller skips or reports; a missing reason is an error that says what is missing.
pub fn admit_run(gov: &RunGovernance, event: &Event, ref_allowed: bool, reason: Result<(), Vec<String>>) -> (r: Result<
    bool,
    TriggerError,
>)
    ensures
        match gov.rules() {
            None => r == Ok::<bool, TriggerError>(true),
            Some(p) => if !ref_admitted(p, *event, ref_allowed) {
                r == Ok::<bool, TriggerError>(false)
            } else {
                match reason {
                    Ok(_) => r == Ok::<bool, TriggerError>(true),
                    Err(v) => r matches Err(TriggerError::ReasonRequired(m)) && m@ == text::join(
                        text::views(v@),
                        "; "@,
                    ),
                }
            },
        },
{
    let p = match gov.protection() {
        Some(p) => p,
        None => {
            return Ok(true);
        },
    };
    let admitted = match &event.protection_ref {
        Some(_) => ref_allowed,
        None => p.allowed_refs.len() == 0,
    };
    if !admitted {
        return Ok(false);
    }
    match reason {
        Ok(_) => Ok(true),
        Err(v) => Err(TriggerError::ReasonRequired(text::join_strings(&v, "; "))),
    }
}

} // verus!
