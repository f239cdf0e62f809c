//! The authoritative world server, its model, and client projections.

pub mod model;
pub mod events;
pub mod fingerprint;
pub mod decide;
pub mod engine;
pub mod projection;
pub mod equality;
pub mod readiness;
pub mod laws;
pub mod scenario;
