use aube::embedder::Embedder;
use aube::libc::{
    detect_linux_libc, glibc_loader_dirs, libc_from_loader_scan, libc_from_maps, musl_loader_dir, DetectedLibc,
};

fn listing(names: &[&str]) -> Vec<String> {
    names.iter().map(|n| n.to_string()).collect()
}

#[test]
fn maps_with_musl_loader_classifies_musl() {
    let maps = "7f0000000000-7f0000001000 r-xp 00000000 08:01 42 /lib/ld-musl-x86_64.so.1\n";
    assert_eq!(libc_from_maps(maps), Some("musl"));
}

#[test]
fn maps_with_glibc_loader_classifies_glibc() {
    let maps = "7f0000000000-7f0000001000 r-xp 00000000 08:01 42 /usr/lib64/ld-linux-x86-64.so.2\n";
    assert_eq!(libc_from_maps(maps), Some("glibc"));
}

#[test]
fn maps_without_any_loader_is_inconclusive() {
    // A static binary maps no dynamic loader at all.
    let maps = "7f0000000000-7f0000001000 r-xp 00000000 08:01 42 /usr/bin/aube\n";
    assert_eq!(libc_from_maps(maps), None);
}

#[test]
fn scan_prefers_glibc_when_both_loaders_are_present() {
    let glibc_dir = listing(&["ld-linux-x86-64.so.2"]);
    let musl_dir = listing(&["ld-musl-x86_64.so.1"]);
    assert_eq!(libc_from_loader_scan(&vec![glibc_dir], &musl_dir), Some("glibc"));
}

#[test]
fn scan_reports_musl_when_only_the_musl_loader_exists() {
    let glibc_dir = listing(&[]);
    let musl_dir = listing(&["ld-musl-aarch64.so.1"]);
    assert_eq!(libc_from_loader_scan(&vec![glibc_dir], &musl_dir), Some("musl"));
}

#[test]
fn scan_with_no_loaders_is_inconclusive() {
    let glibc_dir = listing(&[]);
    let musl_dir = listing(&[]);
    assert_eq!(libc_from_loader_scan(&vec![glibc_dir], &musl_dir), None);
}

#[test]
fn detect_returns_npm_vocabulary_for_this_host() {
    let none: Vec<Vec<String>> = Vec::new();
    let nothing: Vec<String> = Vec::new();
    let libc = detect_linux_libc("linux", None, &none, &nothing);
    assert!(libc == "glibc" || libc == "musl");
    assert_eq!(detect_linux_libc("macos", None, &none, &nothing), "");
}

#[test]
fn mapped_loader_decides_before_the_scan() {
    let dirs = vec![listing(&["ld-linux-x86-64.so.2"])];
    let musl = listing(&["ld-musl-x86_64.so.1"]);
    assert_eq!(detect_linux_libc("linux", Some("... /lib/ld-musl-x86_64.so.1"), &dirs, &musl), "musl");
    assert_eq!(detect_linux_libc("linux", Some("/usr/bin/aube"), &dirs, &musl), "glibc");
    assert_eq!(detect_linux_libc("linux", Some("/usr/bin/aube"), &Vec::new(), &musl), "musl");
    assert_eq!(detect_linux_libc("linux", Some("/usr/bin/aube"), &Vec::new(), &Vec::new()), "glibc");
}

#[test]
fn embedded_command_prefix_drives_user_facing_commands_and_recursion() {
    let elidelike = Embedder {
        command_prefix: listing(&["elide", "aube", "--"]),
        ..Embedder::standalone()
    };
    assert_eq!(elidelike.prog(), "aube");
    assert_eq!(elidelike.command_prefix_display(), "elide aube --");
    assert_eq!(elidelike.recursive_command_args(), &["aube", "--"]);
    assert_eq!(elidelike.cmd("install"), "elide aube -- install");
}

#[test]
fn standalone_identity_names_its_files() {
    let own = Embedder::standalone();
    assert_eq!(own.cmd("install"), "aube install");
    assert_eq!(own.recursive_command_args(), Vec::<String>::new());
    assert_eq!(own.state_dir_name(), ".aube-state");
    assert_eq!(own.lockfile_basename, "aube-lock.yaml");
}

#[test]
fn loaders_are_looked_for_where_distributions_put_them() {
    assert_eq!(glibc_loader_dirs(), vec!["/lib", "/lib64", "/lib/x86_64-linux-gnu", "/lib/aarch64-linux-gnu"]);
    assert_eq!(musl_loader_dir(), "/lib");
}

#[test]
fn the_library_is_found_out_once() {
    let none: Vec<Vec<String>> = Vec::new();
    let nothing = listing(&[]);
    let mut known = DetectedLibc::new();
    assert_eq!(known.get(), None);
    assert_eq!(known.detect("linux", Some("/lib/ld-musl-x86_64.so.1"), &none, &nothing), "musl");
    assert_eq!(known.get(), Some("musl"));
    assert_eq!(known.detect("linux", Some("/lib64/ld-linux-x86-64.so.2"), &none, &nothing), "musl");
    assert_eq!(known.detect("macos", None, &none, &nothing), "musl");
}
