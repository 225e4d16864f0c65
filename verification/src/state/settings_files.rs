//! The files that settings are read from.
use crate::digest::content_or_empty;
use crate::embedder::Embedder;
use crate::fs_path::{path_joined, FsPath};
use crate::str_map::StrMap;
use crate::text::{concat, opt_text};
use vstd::prelude::*;

verus! {

/// The files that settings are read from: the shared workspace file and the
/// program's own, the registry configuration of the project and of the user, and
/// the patches.
#[derive(Debug)]
pub struct SettingsFiles {
    pub pnpm_workspace: FsPath,
    /// The name and the path of the program's own workspace file.
    pub own_workspace: Option<(String, FsPath)>,
    pub project_npmrc: FsPath,
    pub user_npmrc: Option<FsPath>,
    /// The name and the path of the list of patches.
    pub patches_sidecar: (String, FsPath),
    pub patches_dir: FsPath,
}

/// The files that settings are read from.
pub struct FilesView {
    pub pnpm_workspace: Seq<Seq<char>>,
    pub own_workspace: Option<(Seq<char>, Seq<Seq<char>>)>,
    pub project_npmrc: Seq<Seq<char>>,
    pub user_npmrc: Option<Seq<Seq<char>>>,
    pub patches_sidecar: (Seq<char>, Seq<Seq<char>>),
    pub patches_dir: Seq<Seq<char>>,
}

impl View for SettingsFiles {
    type V = FilesView;

    open spec fn view(&self) -> FilesView {
        FilesView {
            pnpm_workspace: self.pnpm_workspace@,
            own_workspace: match self.own_workspace {
                Some(f) => Some((f.0@, f.1@)),
                None => None,
            },
            project_npmrc: self.project_npmrc@,
            user_npmrc: match self.user_npmrc {
                Some(p) => Some(p@),
                None => None,
            },
            patches_sidecar: (self.patches_sidecar.0@, self.patches_sidecar.1@),
            patches_dir: self.patches_dir@,
        }
    }
}

/// Where a directory is, where there is one.
pub open spec fn opt_path(path: Option<&FsPath>) -> Option<Seq<Seq<char>>> {
    match path {
        Some(p) => Some(p@),
        None => None,
    }
}

/// The name of the list of patches.
pub open spec fn sidecar_name(program: Seq<char>) -> Seq<char> {
    "."@ + program + "-patches.json"@
}

/// The files that settings are read from, for a project, the user's home and
/// the program.
pub open spec fn files_of(project: Seq<Seq<char>>, home: Option<Seq<Seq<char>>>, embedder: Embedder) -> FilesView {
    FilesView {
        pnpm_workspace: path_joined(project, "pnpm-workspace.yaml"@),
        own_workspace: match opt_text(embedder.workspace_yaml) {
            Some(name) => Some((name, path_joined(project, name))),
            None => None,
        },
        project_npmrc: path_joined(project, ".npmrc"@),
        user_npmrc: match home {
            Some(h) => Some(path_joined(h, ".npmrc"@)),
            None => None,
        },
        patches_sidecar: (sidecar_name(embedder.name@), path_joined(project, sidecar_name(embedder.name@))),
        patches_dir: path_joined(project, "patches"@),
    }
}

/// The files that settings are read from, for a project, the user's home and
/// the program.
pub fn settings_files(project_dir: &FsPath, home: Option<&FsPath>, embedder: &Embedder) -> (r: SettingsFiles)
    ensures
        r@ == files_of(project_dir@, opt_path(home), *embedder),
{
    let own_workspace = match &embedder.workspace_yaml {
        Some(name) => Some((name.clone(), project_dir.join(name.as_str()))),
        None => None,
    };
    let user_npmrc = match home {
        Some(h) => Some(h.join(".npmrc")),
        None => None,
    };
    let dotted = concat(".", embedder.name.as_str());
    let sidecar = concat(dotted.as_str(), "-patches.json");
    let sidecar_path = project_dir.join(sidecar.as_str());
    SettingsFiles {
        pnpm_workspace: project_dir.join("pnpm-workspace.yaml"),
        own_workspace,
        project_npmrc: project_dir.join(".npmrc"),
        user_npmrc,
        patches_sidecar: (sidecar, sidecar_path),
        patches_dir: project_dir.join("patches"),
    }
}

/// The bytes of the files that settings are read from, where they can be read.
#[derive(Debug)]
pub struct SettingsContents {
    pub pnpm_workspace: Option<Vec<u8>>,
    pub own_workspace: Option<Vec<u8>>,
    pub project_npmrc: Option<Vec<u8>>,
    pub user_npmrc: Option<Vec<u8>>,
    pub patches_sidecar: Option<Vec<u8>>,
    /// The files in the directory of patches, by name.
    pub patches: StrMap<Option<Vec<u8>>>,
}

/// The bytes of the files that settings are read from. A file that cannot be
/// read counts as empty, except for the list of patches.
pub struct ContentsView {
    pub pnpm_workspace: Seq<u8>,
    pub own_workspace: Seq<u8>,
    pub project_npmrc: Seq<u8>,
    pub user_npmrc: Seq<u8>,
    pub patches_sidecar: Option<Seq<u8>>,
    pub patches: Map<Seq<char>, Seq<u8>>,
}

impl View for SettingsContents {
    type V = ContentsView;

    open spec fn view(&self) -> ContentsView {
        ContentsView {
            pnpm_workspace: content_or_empty(self.pnpm_workspace),
            own_workspace: content_or_empty(self.own_workspace),
            project_npmrc: content_or_empty(self.project_npmrc),
            user_npmrc: content_or_empty(self.user_npmrc),
            patches_sidecar: match self.patches_sidecar {
                Some(c) => Some(c@),
                None => None,
            },
            patches: self.patches@.map_values(|c: Option<Vec<u8>>| content_or_empty(c)),
        }
    }
}

/// One of the files that settings are read from.
pub enum SettingsFile {
    PnpmWorkspace,
    OwnWorkspace,
    ProjectNpmrc,
    UserNpmrc,
    PatchesSidecar,
    /// A file in the directory of patches, by name.
    Patch(Seq<char>),
}

/// Only the one file was changed, made or removed, and it is one that is read.
pub open spec fn changed_only(f: FilesView, a: ContentsView, b: ContentsView, file: SettingsFile) -> bool {
    match file {
        SettingsFile::PnpmWorkspace => a.pnpm_workspace != b.pnpm_workspace && b == (ContentsView {
            pnpm_workspace: b.pnpm_workspace,
            ..a
        }),
        SettingsFile::OwnWorkspace => f.own_workspace is Some && a.own_workspace != b.own_workspace && b == (
        ContentsView { own_workspace: b.own_workspace, ..a }),
        SettingsFile::ProjectNpmrc => a.project_npmrc != b.project_npmrc && b == (ContentsView {
            project_npmrc: b.project_npmrc,
            ..a
        }),
        SettingsFile::UserNpmrc => f.user_npmrc is Some && a.user_npmrc != b.user_npmrc && b == (ContentsView {
            user_npmrc: b.user_npmrc,
            ..a
        }),
        SettingsFile::PatchesSidecar => a.patches_sidecar != b.patches_sidecar && b == (ContentsView {
            patches_sidecar: b.patches_sidecar,
            ..a
        }),
        SettingsFile::Patch(name) => {
            &&& a.patches != b.patches
            &&& a.patches.remove(name) == b.patches.remove(name)
            &&& b == (ContentsView { patches: b.patches, ..a })
        },
    }
}

} // verus!
