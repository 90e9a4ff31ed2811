//! Documentation-debt detection for git hooks: classify a commit's changed
//! files, infer which docs should have been updated, keep a commit-keyed
//! ledger of outstanding debt and decide whether a push may go ahead.

pub mod detect;
pub mod foreign;
pub mod hook;
pub mod ledger;
pub mod paths;
pub mod status;
pub mod text;
pub mod vcs;
