//! The resolved dependency graph that an install works from.
use crate::str_map::StrMap;
use crate::text::concat3;
use vstd::prelude::*;

verus! {

/// Where a package that does not come from a registry is found.
///
/// The texts are paths relative to the project root.
#[derive(Debug, Clone)]
pub enum LocalSource {
    /// A live link to a directory that owns its own dependencies.
    Link(String),
    /// A directory whose contents are copied.
    Directory(String),
    /// A live directory whose dependencies are installed like a package's.
    Portal(String),
    /// A tarball, a git checkout or a remote archive.
    Other,
}

/// A dependency as a package records it: the text behind the name, and the
/// key of the shared local package that the text stands for, if it does.
#[derive(Debug, Clone)]
pub struct DependencyEdge {
    pub tail: String,
    pub shared_dep_path: Option<String>,
}

/// One package of the graph.
#[derive(Debug, Clone)]
pub struct LockedPackage {
    pub name: String,
    pub version: String,
    pub dep_path: String,
    pub dependencies: StrMap<DependencyEdge>,
    pub peer_dependencies: StrMap<String>,
    pub local_source: Option<LocalSource>,
    pub integrity: Option<String>,
    pub alias_of: Option<String>,
    pub license: Option<String>,
    pub tarball_url: Option<String>,
}

/// The kind of a direct dependency.
#[derive(Clone, Copy, Debug, PartialEq, Eq, Structural)]
pub enum DepType {
    Production,
    Dev,
    Optional,
}

/// A dependency that an importer declares.
#[derive(Debug, Clone)]
pub struct DirectDep {
    pub name: String,
    pub dep_path: String,
    pub dep_type: DepType,
    pub specifier: Option<String>,
}

/// A project of the workspace, and what it depends on.
#[derive(Debug, Clone)]
pub struct Importer {
    /// The importer is a directory of its own on disk.
    pub physical: bool,
    pub dependencies: Vec<DirectDep>,
}

/// The packages of an install by their keys, and the importers that need them.
#[derive(Debug, Clone)]
pub struct LockfileGraph {
    pub importers: StrMap<Importer>,
    pub packages: StrMap<LockedPackage>,
    pub times: StrMap<String>,
    /// The lockfile records where tarballs are.
    pub include_tarball_url: bool,
}

/// The key of the package that a dependency stands for.
pub open spec fn edge_dep_path(name: Seq<char>, edge: DependencyEdge) -> Seq<char> {
    match edge.shared_dep_path {
        Some(s) => s@,
        None => name + seq!['@'] + edge.tail@,
    }
}

/// The key of the package that a dependency stands for.
pub fn child_dep_path(name: &str, edge: &DependencyEdge) -> (r: String)
    ensures
        r@ == edge_dep_path(name@, *edge),
{
    match &edge.shared_dep_path {
        Some(s) => s.clone(),
        None => {
            proof {
                reveal_strlit("@");
                assert("@"@ =~= seq!['@']);
            }
            concat3(name, "@", edge.tail.as_str())
        },
    }
}

impl LockedPackage {
    /// The package is a live link.
    pub open spec fn is_link(self) -> bool {
        self.local_source matches Some(s) && s is Link
    }

    /// The name that the registry knows the package by.
    pub open spec fn registry_name_spec(self) -> Seq<char> {
        match self.alias_of {
            Some(s) => s@,
            None => self.name@,
        }
    }

    /// Whether the package is a live link.
    pub fn links(&self) -> (r: bool)
        ensures
            r == self.is_link(),
    {
        match &self.local_source {
            Some(LocalSource::Link(_)) => true,
            _ => false,
        }
    }

    /// The name that the registry knows the package by: the target of an
    /// alias, the package's own name otherwise.
    pub fn registry_name(&self) -> (r: &str)
        ensures
            r@ == self.registry_name_spec(),
    {
        match &self.alias_of {
            Some(s) => s.as_str(),
            None => self.name.as_str(),
        }
    }
}

impl Default for LockedPackage {
    fn default() -> (p: LockedPackage)
        ensures
            p.name@ == Seq::<char>::empty(),
            p.version@ == Seq::<char>::empty(),
            p.dep_path@ == Seq::<char>::empty(),
            p.dependencies@ == Map::<Seq<char>, DependencyEdge>::empty(),
            p.peer_dependencies@ == Map::<Seq<char>, String>::empty(),
            p.local_source is None,
            p.integrity is None,
            p.alias_of is None,
            p.license is None,
            p.tarball_url is None,
    {
        LockedPackage {
            name: String::new(),
            version: String::new(),
            dep_path: String::new(),
            dependencies: StrMap::new(),
            peer_dependencies: StrMap::new(),
            local_source: None,
            integrity: None,
            alias_of: None,
            license: None,
            tarball_url: None,
        }
    }
}

impl Default for LockfileGraph {
    fn default() -> (g: LockfileGraph)
        ensures
            g.importers@ == Map::<Seq<char>, Importer>::empty(),
            g.packages@ == Map::<Seq<char>, LockedPackage>::empty(),
            g.times@ == Map::<Seq<char>, String>::empty(),
            !g.include_tarball_url,
    {
        LockfileGraph {
            importers: StrMap::new(),
            packages: StrMap::new(),
            times: StrMap::new(),
            include_tarball_url: false,
        }
    }
}

} // verus!
