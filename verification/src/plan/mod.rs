//! Turning a resolved component set into an exact, target-specific installation plan.

pub mod authority;
pub mod content_laws;
pub mod destination;
pub mod encoding;
pub mod key;
pub mod key_laws;
pub mod place_laws;
pub mod plan_laws;
pub mod planner;
pub mod step;
