//! Installing: what a run goes through, and what it works out on the way.
pub mod choices;
pub mod concurrency;
pub mod hooks;
pub mod order_laws;
pub mod package_laws;
pub mod packages;
pub mod phases;
pub mod run;
pub mod run_laws;
pub mod selection;
pub mod selection_laws;
pub mod stages;
pub mod stream;
pub mod timings;
