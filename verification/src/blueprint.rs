//! The structure of a building blueprint, apart from its geometry: levels,
//! rooms, walls, openings, stairs and roofs by identity and by the spaces
//! they join. Each element carries, as plain flags, what its geometry was
//! found to be. On this structure the library validates a blueprint, builds
//! its room graph, finds rooms that no entry reaches, works out what a
//! change to the blueprint makes stale, and applies such a change. A record
//! of the blueprint with its geometry as bit patterns gives its semantic
//! fingerprint.

pub mod plan;
pub mod validate;
pub mod graph;
pub mod impact;
pub mod fingerprint;
pub mod delta;
