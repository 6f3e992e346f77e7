//! Simulation core for a networked, tile-based 2D world.
//!
//! The library owns the shared world state (a dense tile grid), advances
//! fixed-timestep physics for humanoid entities, synchronizes chunks of the
//! grid between a server and its clients with per-chunk sequence numbers,
//! and computes a per-frame light field by flood-fill relaxation.
//! All I/O (sockets, windowing, rendering) lives outside this crate; the
//! functions here map plain values to plain values and carry contracts.

pub mod bimap;
pub mod client_state;
pub mod collision;
pub mod entities;
pub mod gen_map;
pub mod handle_map;
pub mod humanoid;
pub mod light;
pub mod net;
pub mod net_msg;
pub mod num;
pub mod render_desc;
pub mod scheduler;
pub mod server_state;
pub mod terrain;
pub mod tile;
pub mod window;
pub mod world;
