//! What an install records about itself.
use crate::duplicate::Duplicate;
use crate::str_map::StrMap;
use vstd::prelude::*;

verus! {

/// Size and modification time of a file, in the resolution that the file
/// system reports.
///
/// A rewrite that keeps the length and restores the modification time is not
/// noticed: that is the price of not reading the file.
#[derive(Clone, Copy, Debug, PartialEq, Eq, Structural)]
pub struct FileMeta {
    pub size: u64,
    pub mtime_secs: i64,
    pub mtime_nanos: u32,
}

impl FileMeta {
    /// The snapshot of a file with that size and modification time. A time
    /// that is not known counts as the epoch.
    pub fn capture(size: u64, modified: Option<(i64, u32)>) -> (m: FileMeta)
        ensures
            m.size == size,
            match modified {
                Some(t) => m.mtime_secs == t.0 && m.mtime_nanos == t.1,
                None => m.mtime_secs == 0 && m.mtime_nanos == 0,
            },
    {
        match modified {
            Some((secs, nanos)) => FileMeta { size, mtime_secs: secs, mtime_nanos: nanos },
            None => FileMeta { size, mtime_secs: 0, mtime_nanos: 0 },
        }
    }
}

/// The fingerprints of a local directory that a package is copied from.
#[derive(Debug, PartialEq, Eq)]
pub struct LocalDirectoryFingerprint {
    pub content_hash: String,
    pub metadata_hash: String,
}

/// How packages are laid out.
#[derive(Clone, Copy, Debug, PartialEq, Eq, Structural)]
pub enum InstallLayoutMode {
    Isolated,
    Hoisted,
}

/// How far up packages could go when they were laid out.
#[derive(Clone, Copy, Debug, PartialEq, Eq, Structural)]
pub enum InstallHoistingLimits {
    Unlimited,
    Workspaces,
    Dependencies,
}

/// What was recorded of an installed package.
#[derive(Debug, PartialEq, Eq)]
pub struct InstalledPackageState {
    pub name: String,
    pub version: String,
    pub package_json_path: String,
    pub package_json_hash: String,
    /// The package is a live link, whose target is not looked into.
    pub link: bool,
}

/// The tree that an install made.
#[derive(Debug)]
pub struct InstallLayoutState {
    pub linker: InstallLayoutMode,
    pub modules_dir_name: String,
    pub hoisting_limits: Option<InstallHoistingLimits>,
    pub virtual_store_dir_max_length: Option<usize>,
    /// For each importer the entries of its direct dependencies.
    pub direct_entries: StrMap<Vec<String>>,
    pub packages: StrMap<InstalledPackageState>,
    /// The links inside shared store entries and where they lead. None for a
    /// state that was written before they were recorded.
    pub gvs_nested_links: Option<StrMap<String>>,
}

/// Everything that an install records.
#[derive(Debug)]
pub struct InstallState {
    pub lockfile_hash: String,
    pub lockfile_snapshot_name: Option<String>,
    pub lockfile_meta: Option<FileMeta>,
    /// For each workspace member with a lockfile of its own the digest of it,
    /// empty for a member without one.
    pub member_lockfile_hashes: StrMap<String>,
    pub member_lockfile_meta: StrMap<FileMeta>,
    pub package_json_hashes: StrMap<String>,
    pub package_json_meta: StrMap<FileMeta>,
    /// None for a state that was written before they were recorded.
    pub local_directory_hashes: Option<StrMap<LocalDirectoryFingerprint>>,
    pub aube_version: String,
    pub section_filtered: bool,
    pub settings_hash: String,
    pub package_content_hashes: StrMap<String>,
    pub graph_lthash: String,
    pub package_subtree_hashes: StrMap<String>,
    pub package_json_shape_digests: StrMap<String>,
    pub layout: Option<InstallLayoutState>,
    /// The packages whose build scripts were skipped for want of approval.
    pub unreviewed_builds: Vec<String>,
}

/// The part of the state that tells whether an install is needed.
#[derive(Debug)]
pub struct FreshnessState {
    pub lockfile_hash: String,
    pub lockfile_snapshot_name: Option<String>,
    pub lockfile_meta: Option<FileMeta>,
    pub member_lockfile_hashes: StrMap<String>,
    pub member_lockfile_meta: StrMap<FileMeta>,
    pub package_json_hashes: StrMap<String>,
    pub package_json_meta: StrMap<FileMeta>,
    pub local_directory_hashes: Option<StrMap<LocalDirectoryFingerprint>>,
    pub section_filtered: bool,
    pub settings_hash: String,
    pub package_json_shape_digests: StrMap<String>,
    pub layout: Option<InstallLayoutState>,
    pub unreviewed_builds: Vec<String>,
}

/// The licenses of the installed packages.
#[derive(Debug)]
pub struct InstallLicenseState {
    pub fingerprint: String,
    pub licenses: StrMap<String>,
    pub linked_package_dirs: StrMap<String>,
}

/// What a later install compares its packages with.
#[derive(Debug)]
pub struct DeltaStateSnapshot {
    pub package_content_hashes: StrMap<String>,
    pub graph_lthash: Option<String>,
    pub package_subtree_hashes: StrMap<String>,
}

impl DeepView for FileMeta {
    type V = FileMeta;

    open spec fn deep_view(&self) -> FileMeta {
        *self
    }
}

impl Duplicate for FileMeta {
    fn duplicate(&self) -> (r: Self) {
        *self
    }
}

impl DeepView for LocalDirectoryFingerprint {
    type V = (Seq<char>, Seq<char>);

    open spec fn deep_view(&self) -> (Seq<char>, Seq<char>) {
        (self.content_hash@, self.metadata_hash@)
    }
}

impl Duplicate for LocalDirectoryFingerprint {
    fn duplicate(&self) -> (r: Self) {
        LocalDirectoryFingerprint {
            content_hash: self.content_hash.clone(),
            metadata_hash: self.metadata_hash.clone(),
        }
    }
}

/// What was recorded of an installed package.
pub struct PackageView {
    pub name: Seq<char>,
    pub version: Seq<char>,
    pub package_json_path: Seq<char>,
    pub package_json_hash: Seq<char>,
    pub link: bool,
}

impl DeepView for InstalledPackageState {
    type V = PackageView;

    open spec fn deep_view(&self) -> PackageView {
        PackageView {
            name: self.name@,
            version: self.version@,
            package_json_path: self.package_json_path@,
            package_json_hash: self.package_json_hash@,
            link: self.link,
        }
    }
}

impl Duplicate for InstalledPackageState {
    fn duplicate(&self) -> (r: Self) {
        InstalledPackageState {
            name: self.name.clone(),
            version: self.version.clone(),
            package_json_path: self.package_json_path.clone(),
            package_json_hash: self.package_json_hash.clone(),
            link: self.link,
        }
    }
}

/// The tree that an install made.
pub struct LayoutView {
    pub linker: InstallLayoutMode,
    pub modules_dir_name: Seq<char>,
    pub hoisting_limits: Option<InstallHoistingLimits>,
    pub virtual_store_dir_max_length: Option<usize>,
    pub direct_entries: Map<Seq<char>, Seq<Seq<char>>>,
    pub packages: Map<Seq<char>, PackageView>,
    pub gvs_nested_links: Option<Map<Seq<char>, Seq<char>>>,
}

impl DeepView for InstallLayoutState {
    type V = LayoutView;

    open spec fn deep_view(&self) -> LayoutView {
        LayoutView {
            linker: self.linker,
            modules_dir_name: self.modules_dir_name@,
            hoisting_limits: self.hoisting_limits,
            virtual_store_dir_max_length: self.virtual_store_dir_max_length,
            direct_entries: self.direct_entries.deep_view(),
            packages: self.packages.deep_view(),
            gvs_nested_links: self.gvs_nested_links.deep_view(),
        }
    }
}

impl Duplicate for InstallLayoutState {
    fn duplicate(&self) -> (r: Self) {
        InstallLayoutState {
            linker: self.linker,
            modules_dir_name: self.modules_dir_name.clone(),
            hoisting_limits: self.hoisting_limits,
            virtual_store_dir_max_length: self.virtual_store_dir_max_length,
            direct_entries: self.direct_entries.duplicate(),
            packages: self.packages.duplicate(),
            gvs_nested_links: self.gvs_nested_links.duplicate(),
        }
    }
}

/// The part of the state that tells whether an install is needed.
pub struct FreshnessView {
    pub lockfile_hash: Seq<char>,
    pub lockfile_snapshot_name: Option<Seq<char>>,
    pub lockfile_meta: Option<FileMeta>,
    pub member_lockfile_hashes: Map<Seq<char>, Seq<char>>,
    pub member_lockfile_meta: Map<Seq<char>, FileMeta>,
    pub package_json_hashes: Map<Seq<char>, Seq<char>>,
    pub package_json_meta: Map<Seq<char>, FileMeta>,
    pub local_directory_hashes: Option<Map<Seq<char>, (Seq<char>, Seq<char>)>>,
    pub section_filtered: bool,
    pub settings_hash: Seq<char>,
    pub package_json_shape_digests: Map<Seq<char>, Seq<char>>,
    pub layout: Option<LayoutView>,
    pub unreviewed_builds: Seq<Seq<char>>,
}

impl View for FreshnessState {
    type V = FreshnessView;

    open spec fn view(&self) -> FreshnessView {
        FreshnessView {
            lockfile_hash: self.lockfile_hash@,
            lockfile_snapshot_name: self.lockfile_snapshot_name.deep_view(),
            lockfile_meta: self.lockfile_meta,
            member_lockfile_hashes: self.member_lockfile_hashes.deep_view(),
            member_lockfile_meta: self.member_lockfile_meta.deep_view(),
            package_json_hashes: self.package_json_hashes.deep_view(),
            package_json_meta: self.package_json_meta.deep_view(),
            local_directory_hashes: self.local_directory_hashes.deep_view(),
            section_filtered: self.section_filtered,
            settings_hash: self.settings_hash@,
            package_json_shape_digests: self.package_json_shape_digests.deep_view(),
            layout: self.layout.deep_view(),
            unreviewed_builds: self.unreviewed_builds.deep_view(),
        }
    }
}

impl InstallState {
    /// What the state says of freshness.
    pub open spec fn freshness(self) -> FreshnessView {
        FreshnessView {
            lockfile_hash: self.lockfile_hash@,
            lockfile_snapshot_name: self.lockfile_snapshot_name.deep_view(),
            lockfile_meta: self.lockfile_meta,
            member_lockfile_hashes: self.member_lockfile_hashes.deep_view(),
            member_lockfile_meta: self.member_lockfile_meta.deep_view(),
            package_json_hashes: self.package_json_hashes.deep_view(),
            package_json_meta: self.package_json_meta.deep_view(),
            local_directory_hashes: self.local_directory_hashes.deep_view(),
            section_filtered: self.section_filtered,
            settings_hash: self.settings_hash@,
            package_json_shape_digests: self.package_json_shape_digests.deep_view(),
            layout: self.layout.deep_view(),
            unreviewed_builds: self.unreviewed_builds.deep_view(),
        }
    }
}

impl FreshnessState {
    /// The part of a state that tells whether an install is needed.
    pub fn from_state(state: &InstallState) -> (r: FreshnessState)
        ensures
            r@ == state.freshness(),
    {
        FreshnessState {
            lockfile_hash: state.lockfile_hash.clone(),
            lockfile_snapshot_name: state.lockfile_snapshot_name.duplicate(),
            lockfile_meta: state.lockfile_meta,
            member_lockfile_hashes: state.member_lockfile_hashes.duplicate(),
            member_lockfile_meta: state.member_lockfile_meta.duplicate(),
            package_json_hashes: state.package_json_hashes.duplicate(),
            package_json_meta: state.package_json_meta.duplicate(),
            local_directory_hashes: state.local_directory_hashes.duplicate(),
            section_filtered: state.section_filtered,
            settings_hash: state.settings_hash.clone(),
            package_json_shape_digests: state.package_json_shape_digests.duplicate(),
            layout: state.layout.duplicate(),
            unreviewed_builds: state.unreviewed_builds.duplicate(),
        }
    }
}

} // verus!
