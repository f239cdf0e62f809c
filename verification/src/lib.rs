//! Deterministic core logic of the world prototype: seeded random streams,
//! the command protocol, the authoritative world server and its clients.

pub mod ids;
pub mod protocol;
pub mod rng;
pub mod authority;
pub mod sorted_ids;
pub mod transport;
pub mod persistence;
pub mod building;
pub mod terrain;
pub mod validation;
pub mod route_view;
pub mod blueprint;
pub mod viewer;
pub mod replies;
pub mod stable;
pub mod key_order;
