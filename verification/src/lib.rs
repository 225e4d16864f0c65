//! The planning and decision logic of a package installer.
pub mod digest;
pub mod duplicate;
pub mod embedder;
pub mod fetch;
pub mod fs_path;
pub mod graph;
pub mod hoisted;
pub mod install;
pub mod libc;
pub mod lockfile_policy;
pub mod naming_laws;
pub mod path_laws;
pub mod policy_laws;
pub mod relative;
pub mod state;
pub mod str_map;
pub mod text;
pub mod text_laws;
