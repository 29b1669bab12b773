//! Fixes the Wayland/Nvidia startup failure in Tauri v2 apps without giving up
//! hardware acceleration: the decisions, proved.

pub mod detect;
pub mod laws;
pub mod lifecycle;
pub mod status;
pub mod text;

pub use lifecycle::status;
pub use status::{Error, NotAffectedReason, SessionType, Status};
