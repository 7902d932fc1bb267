//! Object-versioning and effects-computation core of a validator that
//! executes transactions against an object-centric ledger.
//!
//! Each transaction consumes a set of versioned objects and produces a new
//! set of versioned objects.  The crate assigns deterministic new versions
//! (logical clocks), tracks ownership transitions including wrapped and
//! nested objects, validates that argument usage respects ownership and
//! uniqueness rules, and reconciles pre- and post-transaction state into a
//! classified effects record that other validators can independently
//! recompute.

pub mod effects;
pub mod encoding;
pub mod errors;
pub mod model;
pub mod ownership;
pub mod publish;
pub mod validate;
pub mod version;
