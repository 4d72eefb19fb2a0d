//! Position refinement for labelled chess positions: parsing of input
//! records, the analysis-protocol commands and replies, the shared work
//! queue, and the per-item refinement decision.

pub mod text;
pub mod analysis;
pub mod record;
pub mod queue;
pub mod refine;
pub mod engine;
