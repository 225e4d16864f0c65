//! The hoisted layout: real package directories in `node_modules`, with
//! conflicting versions nested under the packages that need them.
pub mod carry_out_laws;
pub mod lookup_laws;
pub mod materialize;
pub mod need_laws;
pub mod placements;
pub mod plan;
pub mod planner;
pub mod preference_laws;
pub mod preferences;
pub mod refusal_laws;
pub mod slot_laws;
pub mod workspace;
