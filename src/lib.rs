//! Registry and shutdown coordination for per-workspace web service instances.
//!
//! A workspace, named by its path, is served by at most one instance at a
//! time. The [`registry::Registry`] maps each normalized workspace key to the
//! record of its instance; [`lifecycle`] holds the start, stop and stop-all
//! transitions over it, and the laws that relate them.
pub mod instance;
pub mod key;
pub mod lifecycle;
pub mod registry;

pub use instance::GGInstance;
pub use key::instance_key;
pub use lifecycle::{begin_start, complete_start, start_step, stop_all_gg_web, stop_gg_web, StartStep};
pub use registry::Registry;
