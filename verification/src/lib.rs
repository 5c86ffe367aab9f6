//! Architectural memory for a codebase.
use vstd::prelude::*;

pub mod advice;
pub mod advice_laws;
pub mod answer_laws;
pub mod answers;
pub mod chains;
pub mod change_laws;
pub mod detail_laws;
pub mod determinism;
pub mod dialect_laws;
pub mod docker_domain;
pub mod documents_domain;
pub mod domain_laws;
pub mod extract;
pub mod git_domain;
pub mod glance;
pub mod ground_laws;
pub mod guard;
pub mod guard_laws;
pub mod history_laws;
pub mod incremental;
pub mod invariants;
pub mod laws;
pub mod listing;
pub mod mcp;
pub mod messages_domain;
pub mod model;
pub mod mutation;
pub mod mutation_policy;
pub mod numbers;
pub mod order;
pub mod outside;
pub mod overview_laws;
pub mod ownership;
pub mod patch;
pub mod patch_laws;
pub mod paths;
pub mod permission_laws;
pub mod permissions;
pub mod photos_domain;
pub mod policy_laws;
pub mod proposal;
pub mod proposal_laws;
pub mod protocol;
pub mod query;
pub mod register;
pub mod report_laws;
pub mod reports;
pub mod request;
pub mod rescan;
pub mod resource;
pub mod rest;
pub mod root;
pub mod scan;
pub mod scan_laws;
pub mod scoring;
pub mod seed;
pub mod seed_laws;
pub mod service_laws;
pub mod shape;
pub mod shown;
pub mod store;
pub mod structural;
pub mod survey;
pub mod table;
pub mod text;
pub mod tree;
pub mod usage_laws;
pub mod word_laws;
pub mod written;

verus! {
} // verus!
