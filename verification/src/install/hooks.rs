//! What runs around an install, and what is asked of the build policy.
use crate::fs_path::FsPath;
use crate::text::opt_text;
use vstd::prelude::*;

verus! {

/// What the build policy says of a package.
#[derive(Debug, Clone, Copy, PartialEq, Eq, Structural)]
pub enum AllowDecision {
    Allow,
    Deny,
    Unspecified,
}

/// Whether a package may run its build scripts: only where the policy says so.
pub fn package_build_is_allowed(decision: AllowDecision) -> (r: bool)
    ensures
        r == (decision == AllowDecision::Allow),
{
    match decision {
        AllowDecision::Allow => true,
        _ => false,
    }
}

/// Whether the store was chosen explicitly: by the host, or by a flag.
/// `from_cli` is the directory that the flags name, where they do.
pub fn has_explicit_store_dir_override(embedder_override: bool, from_cli: Option<&str>) -> (r: bool)
    ensures
        r == (embedder_override || from_cli is Some),
{
    embedder_override || from_cli.is_some()
}

/// A script of the root project that runs before resolution.
#[derive(Debug)]
pub struct DevPreinstall {
    pub root_dir: FsPath,
    pub script: String,
    /// The command that the environment has to be set up for first.
    pub initialize_environment_for: Option<String>,
}

/// The hook of the root project that runs before resolution: from the root of
/// the workspace where there is one, and not at all where scripts are ignored
/// or nothing is installed.
pub fn run_dev_preinstall(
    project_dir: &FsPath,
    workspace_root: Option<&FsPath>,
    ignore_scripts: bool,
    dry_run: bool,
    lockfile_only: bool,
    initialize_environment_for: Option<&str>,
) -> (r: Option<DevPreinstall>)
    ensures
        r is None <==> ignore_scripts || dry_run || lockfile_only,
        r is Some ==> ({
            let d = r->0;
            &&& d.root_dir@ == (match workspace_root {
                Some(w) => w@,
                None => project_dir@,
            })
            &&& d.script@ == "pnpm:devPreinstall"@
            &&& opt_text(d.initialize_environment_for) == (match initialize_environment_for {
                Some(c) => Some(c@),
                None => None,
            })
        }),
{
    if ignore_scripts || dry_run || lockfile_only {
        return None;
    }
    let root_dir = match workspace_root {
        Some(w) => w.copy(),
        None => project_dir.copy(),
    };
    let command = match initialize_environment_for {
        Some(c) => Some(c.to_owned()),
        None => None,
    };
    Some(
        DevPreinstall { root_dir, script: "pnpm:devPreinstall".to_owned(), initialize_environment_for: command },
    )
}

} // verus!
