//! Incident review engine: reconciles person identities across two
//! directories, filters and clusters near-duplicate incident reports,
//! and drives the accept/reject decision over each cluster.

pub mod cache;
pub mod engine;
pub mod grouping;
pub mod incident;
pub mod notion;
pub mod seqs;
pub mod slack;
pub mod summary;
pub mod text;
pub mod user;

use vstd::prelude::*;

verus! {

} // verus!
