//! What is known of the file system while freshness is checked.
//!
//! The check asks for one fact at a time, and is asked again with the fact
//! added, until it has a verdict. So a file is read only where its size and
//! time do not already settle the matter.
use crate::fs_path::{text_of, FsPath};
use crate::state::model::FileMeta;
use crate::str_map::{StrMap, StrSet};
use vstd::prelude::*;

verus! {

/// A question about the file system.
#[derive(Debug, PartialEq, Eq)]
pub enum Probe {
    /// Whether something is at the path.
    Exists(FsPath),
    /// Size and modification time of the file.
    Meta(FsPath),
    /// The bytes of the file.
    Content(FsPath),
    /// The digest of what in a manifest decides about an install.
    Shape(FsPath),
    /// Name and version in an installed package's manifest.
    Manifest(FsPath),
    /// The fingerprint of the metadata of a directory.
    DirMetadata(FsPath),
    /// The fingerprint of the contents of a directory.
    DirContent(FsPath),
    /// The members of the workspace.
    Members,
    /// Which of the recorded direct entries are there.
    Entries,
    /// Where the recorded store links lead.
    Links,
    /// The digest of the settings.
    Settings,
}

/// A question about the file system.
pub enum ProbeView {
    Exists(Seq<Seq<char>>),
    Meta(Seq<Seq<char>>),
    Content(Seq<Seq<char>>),
    Shape(Seq<Seq<char>>),
    Manifest(Seq<Seq<char>>),
    DirMetadata(Seq<Seq<char>>),
    DirContent(Seq<Seq<char>>),
    Members,
    Entries,
    Links,
    Settings,
}

impl View for Probe {
    type V = ProbeView;

    open spec fn view(&self) -> ProbeView {
        match self {
            Probe::Exists(p) => ProbeView::Exists(p@),
            Probe::Meta(p) => ProbeView::Meta(p@),
            Probe::Content(p) => ProbeView::Content(p@),
            Probe::Shape(p) => ProbeView::Shape(p@),
            Probe::Manifest(p) => ProbeView::Manifest(p@),
            Probe::DirMetadata(p) => ProbeView::DirMetadata(p@),
            Probe::DirContent(p) => ProbeView::DirContent(p@),
            Probe::Members => ProbeView::Members,
            Probe::Entries => ProbeView::Entries,
            Probe::Links => ProbeView::Links,
            Probe::Settings => ProbeView::Settings,
        }
    }
}

/// What an installed package's manifest says.
#[derive(Debug, PartialEq, Eq)]
pub enum ManifestFact {
    Missing,
    Unreadable,
    Found { name: String, version: String },
}

/// A member of the workspace, and the lockfile that it would write.
#[derive(Debug)]
pub struct Member {
    pub dir: FsPath,
    pub preferred_lockfile: String,
}

/// What is known so far. Paths are keyed by their texts; a fact that could not
/// be had is known as none.
#[derive(Debug)]
pub struct Facts {
    pub exists: StrMap<bool>,
    pub meta: StrMap<Option<FileMeta>>,
    pub content: StrMap<Option<Vec<u8>>>,
    pub shape: StrMap<Option<Vec<u8>>>,
    pub manifest: StrMap<ManifestFact>,
    pub dir_metadata: StrMap<Option<String>>,
    pub dir_content: StrMap<Option<String>>,
    pub members: Option<Vec<Member>>,
    pub entries: Option<StrSet>,
    pub links: Option<StrMap<String>>,
    pub settings_hash: Option<String>,
}

/// The fact about the path is known.
pub open spec fn known<V>(m: StrMap<V>, path: Seq<Seq<char>>) -> bool {
    m@.contains_key(text_of(path))
}

/// The fact about the path.
pub open spec fn fact<V>(m: StrMap<V>, path: Seq<Seq<char>>) -> V {
    m@[text_of(path)]
}

impl Facts {
    /// The question has been answered.
    pub open spec fn answers(self, probe: ProbeView) -> bool {
        match probe {
            ProbeView::Exists(p) => known(self.exists, p),
            ProbeView::Meta(p) => known(self.meta, p),
            ProbeView::Content(p) => known(self.content, p),
            ProbeView::Shape(p) => known(self.shape, p),
            ProbeView::Manifest(p) => known(self.manifest, p),
            ProbeView::DirMetadata(p) => known(self.dir_metadata, p),
            ProbeView::DirContent(p) => known(self.dir_content, p),
            ProbeView::Members => self.members is Some,
            ProbeView::Entries => self.entries is Some,
            ProbeView::Links => self.links is Some,
            ProbeView::Settings => self.settings_hash is Some,
        }
    }

    /// Everything that is known here is known there, and the same.
    pub open spec fn extended_by(self, more: Facts) -> bool {
        &&& self.exists@.submap_of(more.exists@)
        &&& self.meta@.submap_of(more.meta@)
        &&& self.content@.submap_of(more.content@)
        &&& self.shape@.submap_of(more.shape@)
        &&& self.manifest@.submap_of(more.manifest@)
        &&& self.dir_metadata@.submap_of(more.dir_metadata@)
        &&& self.dir_content@.submap_of(more.dir_content@)
        &&& self.members is Some ==> more.members == self.members
        &&& self.entries is Some ==> more.entries == self.entries
        &&& self.links is Some ==> more.links == self.links
        &&& self.settings_hash is Some ==> more.settings_hash == self.settings_hash
    }

    /// Nothing is known.
    pub fn new() -> (f: Facts)
        ensures
            forall|p: ProbeView| !#[trigger] f.answers(p),
    {
        Facts {
            exists: StrMap::new(),
            meta: StrMap::new(),
            content: StrMap::new(),
            shape: StrMap::new(),
            manifest: StrMap::new(),
            dir_metadata: StrMap::new(),
            dir_content: StrMap::new(),
            members: None,
            entries: None,
            links: None,
            settings_hash: None,
        }
    }
}

/// What is known of a path.
pub fn look<'a, V>(m: &'a StrMap<V>, path: &FsPath) -> (r: Option<&'a V>)
    ensures
        match r {
            Some(v) => known(*m, path@) && *v == fact(*m, path@),
            None => !known(*m, path@),
        },
{
    let text = path.to_text();
    m.get(text.as_str())
}

} // verus!
