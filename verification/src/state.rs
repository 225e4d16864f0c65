//! The recorded state of an install, and whether it still holds.
pub mod collect;
pub mod facts;
pub mod freshness;
pub mod freshness_laws;
pub mod layout;
pub mod layout_check;
pub mod lockfile;
pub mod model;
pub mod placement_file;
pub mod record;
pub mod reason_laws;
pub mod record_laws;
pub mod setting_change_laws;
pub mod settings;
pub mod settings_files;
pub mod settings_laws;
pub mod snapshot;
pub mod verdict;
pub mod verdict_laws;
pub mod written_laws;
