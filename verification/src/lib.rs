//! Kingfisher's decision logic, verified: loading and selecting detection rules, summarising
//! findings and building the Slack, Teams and generic webhook payloads, and paging through Slack
//! searches and naming what they download.
use vstd::prelude::*;

pub mod alerts;
pub mod cli;
pub mod json;
pub mod reporter;
pub mod rule_loader;
pub mod seqs;
pub mod slack;
pub mod text;

verus! {
} // verus!
