//! The decisions of a CI server: which runs a forge event starts and under what governance, how
//! steps are admitted, gated and published, what is kept and swept, and who may see it. Each
//! function works on plain values; reading, writing and sending stand outside the library.

pub mod admission;
pub mod authz;
pub mod bindings;
pub mod cas_pass;
pub mod catalog;
pub mod changeset;
pub mod connections;
pub mod create_run;
pub mod errors;
pub mod event;
pub mod evidence;
pub mod exchange;
pub mod flush;
pub mod forge_status;
pub mod gates;
pub mod ids;
pub mod json;
pub mod jwt;
pub mod left_view;
pub mod log_tail;
pub mod log_view;
pub mod login;
pub mod logs;
pub mod mark;
pub mod merged;
pub mod metrics;
pub mod model;
pub mod oauth;
pub mod oidc;
pub mod onboarding;
pub mod order;
pub mod overlay;
pub mod persist;
pub mod publish;
pub mod refs;
pub mod retention;
pub mod router;
pub mod runs;
pub mod secrets;
pub mod sessions;
pub mod settle;
pub mod settled;
pub mod snapshots;
pub mod sort;
pub mod step_secrets;
pub mod text;
pub mod trigger;
pub mod webhooks;
