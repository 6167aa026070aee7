//! Round-robin arbitration for cycle-based simulators.
//!
//! A fixed set of requestor slots compete for one shared resource; each
//! arbitration round grants exactly one pending requestor, rotating priority
//! so that no requestor is starved while others are bidding.

pub mod arbiter;
pub mod laws;
