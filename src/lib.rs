//! The core of a structural rewriting engine: substitution environments,
//! rule instantiation, the rule graph and its global worklist, match
//! selection, edit application on source text, and the cleanup workflow.
pub mod cache;
pub mod driver;
pub mod edit;
pub mod matching;
pub mod rule;
pub mod store;
pub mod text;
pub mod workflow;
