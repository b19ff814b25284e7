//! Real-time relay for location-bound group chats: the registry of live
//! connections, the per-connection relay decisions, and the admission gate
//! that runs before a connection is upgraded.
pub mod clock;
pub mod errors;
pub mod gate;
pub mod ids;
pub mod json;
pub mod models;
pub mod registry;
pub mod relay;
pub mod teardown;
