//! What the library decides around the remote achievement services: the
//! addresses to ask, and the reading of what comes back.

pub mod hydra;
pub mod language;
pub mod steam;

pub use hydra::HydraAPI;
pub use steam::SteamAPI;
