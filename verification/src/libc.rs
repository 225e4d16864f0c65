//! Which C library the host runs, from what is found on it.
//!
//! The dynamic loader that is mapped into the running process is the
//! authority. A static binary maps none; then the loader directories are
//! scanned, glibc first, since a host may carry musl's loader beside its own.
use crate::text::{contains_text, occurs, same_text, starts_with, texts};
use vstd::prelude::*;

verus! {

/// The library that the memory map of a process shows.
pub open spec fn maps_show(maps: Seq<char>) -> Option<Seq<char>> {
    if occurs(maps, "/ld-musl-"@) {
        Some("musl"@)
    } else if occurs(maps, "/ld-linux"@) {
        Some("glibc"@)
    } else {
        None
    }
}

/// The library that the mapped loader of a process belongs to; none for a
/// process without a dynamic loader.
pub fn libc_from_maps(maps: &str) -> (r: Option<&'static str>)
    ensures
        match r {
            Some(s) => maps_show(maps@) == Some(s@),
            None => maps_show(maps@) is None,
        },
{
    if contains_text(maps, "/ld-musl-") {
        return Some("musl");
    }
    if contains_text(maps, "/ld-linux") {
        return Some("glibc");
    }
    None
}

/// Some entry starts with the prefix.
pub open spec fn has_prefix(entries: Seq<Seq<char>>, prefix: Seq<char>) -> bool {
    exists|i: int| 0 <= i < entries.len() && prefix.is_prefix_of(#[trigger] entries[i])
}

/// Some directory has an entry that starts with the prefix.
pub open spec fn some_dir_has_prefix(dirs: Seq<Vec<String>>, prefix: Seq<char>) -> bool {
    exists|i: int| 0 <= i < dirs.len() && has_prefix(texts((#[trigger] dirs[i])@), prefix)
}

/// The library whose loader is in the directories.
pub open spec fn scan_shows(glibc_dirs: Seq<Vec<String>>, musl_dir: Seq<String>) -> Option<Seq<char>> {
    if some_dir_has_prefix(glibc_dirs, "ld-linux"@) {
        Some("glibc"@)
    } else if has_prefix(texts(musl_dir), "ld-musl-"@) {
        Some("musl"@)
    } else {
        None
    }
}

/// Whether an entry of a directory starts with the prefix.
pub fn dir_has_loader_prefix(entries: &Vec<String>, prefix: &str) -> (r: bool)
    ensures
        r == has_prefix(texts(entries@), prefix@),
{
    let mut i: usize = 0;
    while i < entries.len()
        invariant
            i <= entries@.len(),
            forall|j: int| 0 <= j < i ==> !prefix@.is_prefix_of((#[trigger] entries@[j])@),
        decreases entries.len() - i,
    {
        if starts_with(entries[i].as_str(), prefix) {
            proof {
                assert(prefix@.is_prefix_of(texts(entries@)[i as int]));
            }
            return true;
        }
        i += 1;
    }
    proof {
        assert forall|j: int| 0 <= j < texts(entries@).len() implies !prefix@.is_prefix_of(
            #[trigger] texts(entries@)[j],
        ) by {
            assert(texts(entries@)[j] == entries@[j]@);
        }
    }
    false
}

/// The library whose loader is found in the listings of the loader
/// directories. A host with both loaders runs glibc.
pub fn libc_from_loader_scan(glibc_dirs: &Vec<Vec<String>>, musl_dir: &Vec<String>) -> (r: Option<&'static str>)
    ensures
        match r {
            Some(s) => scan_shows(glibc_dirs@, musl_dir@) == Some(s@),
            None => scan_shows(glibc_dirs@, musl_dir@) is None,
        },
{
    let mut i: usize = 0;
    while i < glibc_dirs.len()
        invariant
            i <= glibc_dirs@.len(),
            forall|j: int| 0 <= j < i ==> !has_prefix(texts((#[trigger] glibc_dirs@[j])@), "ld-linux"@),
        decreases glibc_dirs.len() - i,
    {
        if dir_has_loader_prefix(&glibc_dirs[i], "ld-linux") {
            return Some("glibc");
        }
        i += 1;
    }
    if dir_has_loader_prefix(musl_dir, "ld-musl-") {
        return Some("musl");
    }
    None
}

/// The directories that are listed for the glibc loader.
pub fn glibc_loader_dirs() -> (r: Vec<&'static str>)
    ensures
        r@.len() == 4,
        r@[0]@ == "/lib"@,
        r@[1]@ == "/lib64"@,
        r@[2]@ == "/lib/x86_64-linux-gnu"@,
        r@[3]@ == "/lib/aarch64-linux-gnu"@,
{
    vec!["/lib", "/lib64", "/lib/x86_64-linux-gnu", "/lib/aarch64-linux-gnu"]
}

/// The directory that is listed for the musl loader.
pub fn musl_loader_dir() -> (r: &'static str)
    ensures
        r@ == "/lib"@,
{
    "/lib"
}

/// The host's library in the words of package manifests.
pub open spec fn host_libc(
    os: Seq<char>,
    maps: Option<Seq<char>>,
    glibc_dirs: Seq<Vec<String>>,
    musl_dir: Seq<String>,
) -> Seq<char> {
    if os != "linux"@ {
        ""@
    } else if maps is Some && maps_show(maps->0) is Some {
        maps_show(maps->0)->0
    } else {
        match scan_shows(glibc_dirs, musl_dir) {
            Some(s) => s,
            None => "glibc"@,
        }
    }
}

/// The host's library in the words of package manifests: `glibc` or `musl` on
/// Linux, nothing elsewhere. `maps` is the memory map of this process where it
/// can be read; the listings are those of the loader directories.
pub fn detect_linux_libc(
    os: &str,
    maps: Option<&str>,
    glibc_dirs: &Vec<Vec<String>>,
    musl_dir: &Vec<String>,
) -> (r: &'static str)
    ensures
        r@ == host_libc(
            os@,
            match maps {
                Some(m) => Some(m@),
                None => None,
            },
            glibc_dirs@,
            musl_dir@,
        ),
{
    if !same_text(os, "linux") {
        return "";
    }
    if let Some(m) = maps {
        if let Some(libc) = libc_from_maps(m) {
            return libc;
        }
    }
    match libc_from_loader_scan(glibc_dirs, musl_dir) {
        Some(libc) => libc,
        None => "glibc",
    }
}

/// What is known of the host's library. It is found out once: later answers are
/// the first one, whatever can be read by then.
#[derive(Debug)]
pub struct DetectedLibc {
    libc: Option<&'static str>,
}

impl View for DetectedLibc {
    type V = Option<Seq<char>>;

    closed spec fn view(&self) -> Option<Seq<char>> {
        match self.libc {
            Some(s) => Some(s@),
            None => None,
        }
    }
}

impl DetectedLibc {
    /// Nothing is known yet.
    pub fn new() -> (r: DetectedLibc)
        ensures
            r@ is None,
    {
        DetectedLibc { libc: None }
    }

    /// The library, where it is known: then nothing has to be read.
    pub fn get(&self) -> (r: Option<&'static str>)
        ensures
            match r {
                Some(s) => self@ == Some(s@),
                None => self@ is None,
            },
    {
        self.libc
    }

    /// The host's library, which is known from here on.
    pub fn detect(
        &mut self,
        os: &str,
        maps: Option<&str>,
        glibc_dirs: &Vec<Vec<String>>,
        musl_dir: &Vec<String>,
    ) -> (r: &'static str)
        ensures
            final(self)@ == Some(r@),
            r@ == known_libc(
                old(self)@,
                os@,
                match maps {
                    Some(m) => Some(m@),
                    None => None,
                },
                glibc_dirs@,
                musl_dir@,
            ),
    {
        let libc = match self.libc {
            Some(s) => s,
            None => detect_linux_libc(os, maps, glibc_dirs, musl_dir),
        };
        self.libc = Some(libc);
        libc
    }
}

/// The host's library: the one that is known, else what can be read now.
pub open spec fn known_libc(
    known: Option<Seq<char>>,
    os: Seq<char>,
    maps: Option<Seq<char>>,
    glibc_dirs: Seq<Vec<String>>,
    musl_dir: Seq<String>,
) -> Seq<char> {
    match known {
        Some(s) => s,
        None => host_libc(os, maps, glibc_dirs, musl_dir),
    }
}

/// Once the library was found out, every later answer is the same, whatever is
/// read then.
pub proof fn law_libc_is_found_out_once(
    known: Option<Seq<char>>,
    os: Seq<char>,
    maps: Option<Seq<char>>,
    glibc_dirs: Seq<Vec<String>>,
    musl_dir: Seq<String>,
    later_os: Seq<char>,
    later_maps: Option<Seq<char>>,
    later_glibc_dirs: Seq<Vec<String>>,
    later_musl_dir: Seq<String>,
)
    ensures
        ({
            let first = known_libc(known, os, maps, glibc_dirs, musl_dir);
            known_libc(Some(first), later_os, later_maps, later_glibc_dirs, later_musl_dir) == first
        }),
{
}

/// On Linux the library is always one of the two that packages name; elsewhere
/// none is named.
pub proof fn law_libc_vocabulary(
    os: Seq<char>,
    maps: Option<Seq<char>>,
    glibc_dirs: Seq<Vec<String>>,
    musl_dir: Seq<String>,
)
    ensures
        os == "linux"@ ==> host_libc(os, maps, glibc_dirs, musl_dir) == "glibc"@ || host_libc(
            os,
            maps,
            glibc_dirs,
            musl_dir,
        ) == "musl"@,
        os != "linux"@ ==> host_libc(os, maps, glibc_dirs, musl_dir) == ""@,
{
}

/// A loader that is found in a glibc directory decides for glibc, whatever
/// else is installed, unless a mapped loader says otherwise.
pub proof fn law_dual_loader_host_is_glibc(glibc_dirs: Seq<Vec<String>>, musl_dir: Seq<String>)
    requires
        some_dir_has_prefix(glibc_dirs, "ld-linux"@),
    ensures
        host_libc("linux"@, None, glibc_dirs, musl_dir) == "glibc"@,
{
}

/// A mapped loader decides, whatever the directories hold: musl's where it is
/// mapped, glibc's where it is and musl's is not.
pub proof fn law_mapped_loader_decides(maps: Seq<char>, glibc_dirs: Seq<Vec<String>>, musl_dir: Seq<String>)
    ensures
        occurs(maps, "/ld-musl-"@) ==> host_libc("linux"@, Some(maps), glibc_dirs, musl_dir) == "musl"@,
        occurs(maps, "/ld-linux"@) && !occurs(maps, "/ld-musl-"@) ==> host_libc(
            "linux"@,
            Some(maps),
            glibc_dirs,
            musl_dir,
        ) == "glibc"@,
{
}

/// Where no loader is mapped, or the map cannot be read, the directories decide:
/// a file `ld-linux..` in one of glibc's means glibc; else a file `ld-musl-..` in
/// musl's means musl; else it is glibc.
pub proof fn law_loader_directories_decide(
    maps: Option<Seq<char>>,
    glibc_dirs: Seq<Vec<String>>,
    musl_dir: Seq<String>,
    dir: int,
    file: int,
)
    requires
        maps matches Some(m) ==> !occurs(m, "/ld-musl-"@) && !occurs(m, "/ld-linux"@),
    ensures
        0 <= dir < glibc_dirs.len() && 0 <= file < glibc_dirs[dir]@.len() && "ld-linux"@.is_prefix_of(
            glibc_dirs[dir]@[file]@,
        ) ==> host_libc("linux"@, maps, glibc_dirs, musl_dir) == "glibc"@,
        0 <= file < musl_dir.len() && "ld-musl-"@.is_prefix_of(musl_dir[file]@) && (forall|d: int, f: int|
            0 <= d < glibc_dirs.len() && 0 <= f < glibc_dirs[d]@.len() ==> !"ld-linux"@.is_prefix_of(
                (#[trigger] glibc_dirs[d]@[f])@,
            )) ==> host_libc("linux"@, maps, glibc_dirs, musl_dir) == "musl"@,
        (forall|f: int| 0 <= f < musl_dir.len() ==> !"ld-musl-"@.is_prefix_of((#[trigger] musl_dir[f])@))
            ==> host_libc("linux"@, maps, glibc_dirs, musl_dir) == "glibc"@,
{
    if 0 <= dir < glibc_dirs.len() && 0 <= file < glibc_dirs[dir]@.len() && "ld-linux"@.is_prefix_of(
        glibc_dirs[dir]@[file]@,
    ) {
        assert(texts(glibc_dirs[dir]@)[file] == glibc_dirs[dir]@[file]@);
        assert(has_prefix(texts(glibc_dirs[dir]@), "ld-linux"@));
    }
    if 0 <= file < musl_dir.len() && "ld-musl-"@.is_prefix_of(musl_dir[file]@) {
        assert(texts(musl_dir)[file] == musl_dir[file]@);
    }
    if some_dir_has_prefix(glibc_dirs, "ld-linux"@) {
        let d = choose|d: int| 0 <= d < glibc_dirs.len() && has_prefix(texts((#[trigger] glibc_dirs[d])@), "ld-linux"@);
        let f = choose|f: int|
            0 <= f < texts(glibc_dirs[d]@).len() && "ld-linux"@.is_prefix_of(#[trigger] texts(glibc_dirs[d]@)[f]);
        assert("ld-linux"@.is_prefix_of(glibc_dirs[d]@[f]@));
    }
    if has_prefix(texts(musl_dir), "ld-musl-"@) {
        let f = choose|f: int| 0 <= f < texts(musl_dir).len() && "ld-musl-"@.is_prefix_of(#[trigger] texts(musl_dir)[f]);
        assert("ld-musl-"@.is_prefix_of(musl_dir[f]@));
    }
}

} // verus!
