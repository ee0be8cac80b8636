//! A verified substrate for a multi-process automation agent: a persistent,
//! priority-ordered task queue with deferred scheduling and callback
//! continuations, a process-lifecycle registry used to coordinate graceful
//! shutdown, and time-based staleness/cooldown gating.

pub mod astronomicon;
pub mod cadet;
pub mod captains_log;
mod clock;
pub mod dbqueue;
pub mod duties;
mod ids;
pub mod identity_manager;
pub mod log;
pub mod models;
pub mod rules;
pub mod signaller;
pub mod steward;
pub mod yaml_util;
