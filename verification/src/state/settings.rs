//! The digest of the settings that shape an install.
//!
//! The digest is taken of resolved values, so that an edit without effect does
//! not matter, and of the raw bytes of the files whose contents cannot be
//! resolved into values: workspace files, registry configuration, hooks and
//! patches.
use crate::digest::{content_or_empty, hash_bytes, push_byte, push_bytes, push_text, tagged_digest};
use crate::embedder::Embedder;
use crate::fs_path::{text_of, FsPath};
use crate::state::settings_files::{
    files_of, opt_path, settings_files, FilesView, SettingsContents, SettingsFiles,
};
use crate::str_map::StrMap;
use vstd::prelude::*;
use vstd::utf8::encode_utf8;

verus! {

/// A file that goes into the digest under its path.
#[derive(Debug)]
pub struct LabeledFile {
    pub label: Vec<u8>,
    /// The bytes of the file, where it can be read.
    pub content: Option<Vec<u8>>,
}

/// The settings that shape an install.
///
/// Choices are given by the words that name them, directories by the bytes of
/// their paths.
#[derive(Debug)]
pub struct SettingsSnapshot {
    pub node_linker: String,
    pub hoist: bool,
    pub shamefully_hoist: bool,
    pub hoist_pattern: Vec<String>,
    pub public_hoist_pattern: Vec<String>,
    pub modules_dir: String,
    pub package_import_method: String,
    /// None follows the default; a value is the user's own choice.
    pub enable_global_virtual_store: Option<bool>,
    pub cache_dir: Vec<u8>,
    pub store_dir: Option<Vec<u8>>,
    pub lockfile: bool,
    pub catalog_prune: bool,
    pub enable_modules_dir: bool,
    pub virtual_store_only: bool,
    pub hoist_workspace_packages: bool,
    pub hoisting_limits: String,
    pub dedupe_direct_deps: bool,
    pub symlink: bool,
    pub disable_gvs_for_packages: Vec<String>,
    /// The hook file, by path.
    pub pnpmfile: Option<LabeledFile>,
    pub os: String,
    pub arch: String,
    pub libc: String,
    /// What the files hold that settings are read from.
    pub contents: SettingsContents,
}

/// A setting with its label and its end mark.
pub open spec fn field(label: Seq<char>, value: Seq<u8>) -> Seq<u8> {
    encode_utf8(label) + value + seq![0u8]
}

/// A word for a truth value.
pub open spec fn bool_word(b: bool) -> Seq<char> {
    if b {
        "true"@
    } else {
        "false"@
    }
}

/// A word for a choice that may be left open.
pub open spec fn choice_word(b: Option<bool>) -> Seq<char> {
    match b {
        None => "None"@,
        Some(true) => "Some(true)"@,
        Some(false) => "Some(false)"@,
    }
}

/// The first `n` texts of a list, each with its end mark.
pub open spec fn listed(list: Seq<String>, n: int) -> Seq<u8>
    decreases n,
{
    if n <= 0 {
        Seq::empty()
    } else {
        listed(list, n - 1) + encode_utf8(list[n - 1]@) + seq![0x1fu8]
    }
}

/// A file with its label and its end mark.
pub open spec fn filed(label: Seq<u8>, content: Option<Vec<u8>>) -> Seq<u8> {
    label + seq![0x1fu8] + content_or_empty(content) + seq![0x1eu8]
}

/// The workspace files, by name: the shared one, then the program's own.
pub open spec fn workspace_bytes(f: FilesView, c: SettingsContents) -> Seq<u8> {
    filed(encode_utf8("pnpm-workspace.yaml"@), c.pnpm_workspace) + match f.own_workspace {
        Some(own) => filed(encode_utf8(own.0), c.own_workspace),
        None => Seq::empty(),
    }
}

/// The registry configuration, by path: the project's, then the user's.
pub open spec fn npmrc_bytes(f: FilesView, c: SettingsContents) -> Seq<u8> {
    filed(encode_utf8(text_of(f.project_npmrc)), c.project_npmrc) + match f.user_npmrc {
        Some(path) => filed(encode_utf8(text_of(path)), c.user_npmrc),
        None => Seq::empty(),
    }
}

/// The first `n` patch files, in the order of their names.
pub open spec fn patches_listed(patches: StrMap<Option<Vec<u8>>>, n: int) -> Seq<u8>
    decreases n,
{
    if n <= 0 {
        Seq::empty()
    } else {
        patches_listed(patches, n - 1) + filed(encode_utf8(patches.keys()[n - 1]), patches.values()[n - 1])
    }
}

/// The hook file: its path and its bytes.
pub open spec fn hook_bytes(hook: Option<LabeledFile>) -> Seq<u8> {
    match hook {
        None => Seq::empty(),
        Some(f) => f.label@ + seq![0x1fu8] + content_or_empty(f.content),
    }
}

/// The host that optional packages are chosen for.
pub open spec fn host_bytes(s: SettingsSnapshot) -> Seq<u8> {
    encode_utf8(s.os@) + seq![0x1fu8] + encode_utf8(s.arch@) + seq![0x1fu8] + encode_utf8(s.libc@)
}

/// The list of patches by name, where it can be read, and the patch files.
pub open spec fn patch_bytes(f: FilesView, c: SettingsContents) -> Seq<u8> {
    (match c.patches_sidecar {
        None => Seq::empty(),
        Some(_) => filed(encode_utf8(f.patches_sidecar.0), c.patches_sidecar),
    }) + patches_listed(c.patches, c.patches.keys().len() as int)
}

/// The bytes of an optional directory.
pub open spec fn dir_bytes(dir: Option<Vec<u8>>) -> Seq<u8> {
    content_or_empty(dir)
}

/// The settings that decide how the tree is laid out and linked.
pub open spec fn tree_fields(s: SettingsSnapshot) -> Seq<u8> {
    field("node_linker="@, encode_utf8(s.node_linker@)) + field("hoist="@, encode_utf8(bool_word(s.hoist))) + field(
        "shamefully_hoist="@,
        encode_utf8(bool_word(s.shamefully_hoist)),
    ) + field("hoist_pattern="@, listed(s.hoist_pattern@, s.hoist_pattern@.len() as int)) + field(
        "public_hoist_pattern="@,
        listed(s.public_hoist_pattern@, s.public_hoist_pattern@.len() as int),
    ) + field("modules_dir="@, encode_utf8(s.modules_dir@)) + field(
        "package_import_method="@,
        encode_utf8(s.package_import_method@),
    ) + field("enable_gvs="@, encode_utf8(choice_word(s.enable_global_virtual_store)))
}

/// The settings that follow the directories.
pub open spec fn shape_fields(s: SettingsSnapshot) -> Seq<u8> {
    field("lockfile="@, encode_utf8(bool_word(s.lockfile))) + field(
        "catalog_prune="@,
        encode_utf8(bool_word(s.catalog_prune)),
    ) + field("enable_modules_dir="@, encode_utf8(bool_word(s.enable_modules_dir))) + field(
        "virtual_store_only="@,
        encode_utf8(bool_word(s.virtual_store_only)),
    ) + field("hoist_workspace_packages="@, encode_utf8(bool_word(s.hoist_workspace_packages))) + field(
        "hoisting_limits="@,
        encode_utf8(s.hoisting_limits@),
    ) + field("dedupe_direct_deps="@, encode_utf8(bool_word(s.dedupe_direct_deps))) + field(
        "symlink="@,
        encode_utf8(bool_word(s.symlink)),
    ) + field(
        "disable_gvs_for_packages="@,
        listed(s.disable_gvs_for_packages@, s.disable_gvs_for_packages@.len() as int),
    )
}

/// The resolved settings.
pub open spec fn value_fields(s: SettingsSnapshot) -> Seq<u8> {
    tree_fields(s) + field("cache_dir="@, s.cache_dir@) + field("store_dir="@, dir_bytes(s.store_dir)) + shape_fields(s)
}

/// The byte string that the digest of the settings is taken of: the resolved
/// settings, and the files that settings are read from.
pub open spec fn settings_message(f: FilesView, s: SettingsSnapshot) -> Seq<u8> {
    value_fields(s) + field("workspace_yaml="@, workspace_bytes(f, s.contents)) + field(
        "npmrc="@,
        npmrc_bytes(f, s.contents),
    ) + field("pnpmfile="@, hook_bytes(s.pnpmfile)) + field("host="@, host_bytes(s)) + field(
        "patches="@,
        patch_bytes(f, s.contents),
    )
}

fn push_field(out: &mut Vec<u8>, label: &str, value: &[u8])
    ensures
        final(out)@ == old(out)@ + field(label@, value@),
{
    let ghost was = out@;
    push_text(out, label);
    push_bytes(out, value);
    push_byte(out, 0);
    proof {
        assert(out@ =~= was + field(label@, value@));
    }
}

fn push_text_field(out: &mut Vec<u8>, label: &str, value: &str)
    ensures
        final(out)@ == old(out)@ + field(label@, encode_utf8(value@)),
{
    push_field(out, label, value.as_bytes());
}

fn word(b: bool) -> (r: &'static str)
    ensures
        r@ == bool_word(b),
{
    if b {
        "true"
    } else {
        "false"
    }
}

fn push_bool_field(out: &mut Vec<u8>, label: &str, value: bool)
    ensures
        final(out)@ == old(out)@ + field(label@, encode_utf8(bool_word(value))),
{
    push_text_field(out, label, word(value));
}

fn list_bytes(list: &Vec<String>) -> (r: Vec<u8>)
    ensures
        r@ == listed(list@, list@.len() as int),
{
    let mut out: Vec<u8> = Vec::new();
    let mut i: usize = 0;
    while i < list.len()
        invariant
            i <= list@.len(),
            out@ == listed(list@, i as int),
        decreases list.len() - i,
    {
        push_text(&mut out, list[i].as_str());
        push_byte(&mut out, 0x1f);
        i += 1;
    }
    out
}

fn push_list_field(out: &mut Vec<u8>, label: &str, list: &Vec<String>)
    ensures
        final(out)@ == old(out)@ + field(label@, listed(list@, list@.len() as int)),
{
    let bytes = list_bytes(list);
    push_field(out, label, bytes.as_slice());
}

fn push_content(out: &mut Vec<u8>, content: &Option<Vec<u8>>)
    ensures
        final(out)@ == old(out)@ + content_or_empty(*content),
{
    match content {
        Some(c) => push_bytes(out, c.as_slice()),
        None => {
            proof {
                assert(out@ + Seq::<u8>::empty() =~= out@);
            }
        },
    }
}

fn push_file(out: &mut Vec<u8>, label: &[u8], content: &Option<Vec<u8>>)
    ensures
        final(out)@ == old(out)@ + filed(label@, *content),
{
    let ghost was = out@;
    push_bytes(out, label);
    push_byte(out, 0x1f);
    push_content(out, content);
    push_byte(out, 0x1e);
    proof {
        assert(out@ =~= was + filed(label@, *content));
    }
}

fn push_workspace_field(out: &mut Vec<u8>, files: &SettingsFiles, contents: &SettingsContents)
    ensures
        final(out)@ == old(out)@ + field("workspace_yaml="@, workspace_bytes(files@, *contents)),
{
    let mut bytes: Vec<u8> = Vec::new();
    push_file(&mut bytes, "pnpm-workspace.yaml".as_bytes(), &contents.pnpm_workspace);
    if let Some(own) = &files.own_workspace {
        push_file(&mut bytes, own.0.as_str().as_bytes(), &contents.own_workspace);
    }
    proof {
        assert(bytes@ =~= workspace_bytes(files@, *contents));
    }
    push_field(out, "workspace_yaml=", bytes.as_slice());
}

fn push_npmrc_field(out: &mut Vec<u8>, files: &SettingsFiles, contents: &SettingsContents)
    ensures
        final(out)@ == old(out)@ + field("npmrc="@, npmrc_bytes(files@, *contents)),
{
    let mut bytes: Vec<u8> = Vec::new();
    let project = files.project_npmrc.to_text();
    push_file(&mut bytes, project.as_str().as_bytes(), &contents.project_npmrc);
    if let Some(path) = &files.user_npmrc {
        let user = path.to_text();
        push_file(&mut bytes, user.as_str().as_bytes(), &contents.user_npmrc);
    }
    proof {
        assert(bytes@ =~= npmrc_bytes(files@, *contents));
    }
    push_field(out, "npmrc=", bytes.as_slice());
}

fn push_patches(out: &mut Vec<u8>, files: &SettingsFiles, contents: &SettingsContents)
    ensures
        final(out)@ == old(out)@ + field("patches="@, patch_bytes(files@, *contents)),
{
    let mut bytes: Vec<u8> = Vec::new();
    if contents.patches_sidecar.is_some() {
        push_file(&mut bytes, files.patches_sidecar.0.as_str().as_bytes(), &contents.patches_sidecar);
    }
    let ghost head = bytes@;
    let total = contents.patches.len();
    let mut i: usize = 0;
    proof {
        assert(head + patches_listed(contents.patches, 0) =~= head);
        assert(head =~= match contents.patches_sidecar {
            None => Seq::empty(),
            Some(_) => filed(encode_utf8(files@.patches_sidecar.0), contents.patches_sidecar),
        });
    }
    while i < total
        invariant
            i <= total,
            total == contents.patches.keys().len(),
            bytes@ == head + patches_listed(contents.patches, i as int),
        decreases total - i,
    {
        let ghost was = bytes@;
        push_file(&mut bytes, contents.patches.key_at(i).as_bytes(), contents.patches.value_at(i));
        i += 1;
        proof {
            assert(bytes@ =~= head + patches_listed(contents.patches, i as int));
        }
    }
    push_field(out, "patches=", bytes.as_slice());
}

fn push_tree_fields(out: &mut Vec<u8>, s: &SettingsSnapshot)
    ensures
        final(out)@ == old(out)@ + tree_fields(*s),
{
    let ghost was = out@;
    let mut part: Vec<u8> = Vec::new();
    push_text_field(&mut part, "node_linker=", s.node_linker.as_str());
    proof {
        assert(Seq::<u8>::empty() + part@ =~= part@);
    }
    push_bool_field(&mut part, "hoist=", s.hoist);
    push_bool_field(&mut part, "shamefully_hoist=", s.shamefully_hoist);
    push_list_field(&mut part, "hoist_pattern=", &s.hoist_pattern);
    push_list_field(&mut part, "public_hoist_pattern=", &s.public_hoist_pattern);
    push_text_field(&mut part, "modules_dir=", s.modules_dir.as_str());
    push_text_field(&mut part, "package_import_method=", s.package_import_method.as_str());
    let gvs = match s.enable_global_virtual_store {
        None => "None",
        Some(b) => if b {
            "Some(true)"
        } else {
            "Some(false)"
        },
    };
    push_text_field(&mut part, "enable_gvs=", gvs);
    proof {
        assert(part@ =~= tree_fields(*s));
    }
    push_bytes(out, part.as_slice());
}

fn push_shape_fields(out: &mut Vec<u8>, s: &SettingsSnapshot)
    ensures
        final(out)@ == old(out)@ + shape_fields(*s),
{
    let mut part: Vec<u8> = Vec::new();
    push_bool_field(&mut part, "lockfile=", s.lockfile);
    push_bool_field(&mut part, "catalog_prune=", s.catalog_prune);
    push_bool_field(&mut part, "enable_modules_dir=", s.enable_modules_dir);
    push_bool_field(&mut part, "virtual_store_only=", s.virtual_store_only);
    push_bool_field(&mut part, "hoist_workspace_packages=", s.hoist_workspace_packages);
    push_text_field(&mut part, "hoisting_limits=", s.hoisting_limits.as_str());
    push_bool_field(&mut part, "dedupe_direct_deps=", s.dedupe_direct_deps);
    push_bool_field(&mut part, "symlink=", s.symlink);
    push_list_field(&mut part, "disable_gvs_for_packages=", &s.disable_gvs_for_packages);
    proof {
        assert(part@ =~= shape_fields(*s));
    }
    push_bytes(out, part.as_slice());
}

fn push_host_field(out: &mut Vec<u8>, s: &SettingsSnapshot)
    ensures
        final(out)@ == old(out)@ + field("host="@, host_bytes(*s)),
{
    let mut host: Vec<u8> = Vec::new();
    push_text(&mut host, s.os.as_str());
    push_byte(&mut host, 0x1f);
    push_text(&mut host, s.arch.as_str());
    push_byte(&mut host, 0x1f);
    push_text(&mut host, s.libc.as_str());
    proof {
        assert(host@ =~= host_bytes(*s));
    }
    push_field(out, "host=", host.as_slice());
}

/// The byte string that the digest of the settings is taken of.
pub fn settings_bytes(files: &SettingsFiles, s: &SettingsSnapshot) -> (r: Vec<u8>)
    ensures
        r@ == settings_message(files@, *s),
{
    let mut out: Vec<u8> = Vec::new();
    push_tree_fields(&mut out, s);
    push_field(&mut out, "cache_dir=", s.cache_dir.as_slice());
    let mut store: Vec<u8> = Vec::new();
    push_content(&mut store, &s.store_dir);
    proof {
        assert(store@ =~= dir_bytes(s.store_dir));
    }
    push_field(&mut out, "store_dir=", store.as_slice());
    push_shape_fields(&mut out, s);
    proof {
        assert(out@ =~= value_fields(*s));
    }
    push_workspace_field(&mut out, files, &s.contents);
    push_npmrc_field(&mut out, files, &s.contents);
    let mut hook: Vec<u8> = Vec::new();
    if let Some(f) = &s.pnpmfile {
        push_bytes(&mut hook, f.label.as_slice());
        push_byte(&mut hook, 0x1f);
        push_content(&mut hook, &f.content);
    }
    proof {
        assert(hook@ =~= hook_bytes(s.pnpmfile));
    }
    push_field(&mut out, "pnpmfile=", hook.as_slice());
    push_host_field(&mut out, s);
    push_patches(&mut out, files, &s.contents);
    out
}

/// The digest of the settings of a project.
pub fn hash_settings(
    project_dir: &FsPath,
    home: Option<&FsPath>,
    embedder: &Embedder,
    s: &SettingsSnapshot,
) -> (r: String)
    ensures
        r@ == tagged_digest(settings_message(files_of(project_dir@, opt_path(home), *embedder), *s)),
{
    let files = settings_files(project_dir, home, embedder);
    let bytes = settings_bytes(&files, s);
    hash_bytes(bytes.as_slice())
}

/// What stands between equal ends decides.
pub proof fn lemma_middle(head: Seq<u8>, a: Seq<u8>, b: Seq<u8>, tail: Seq<u8>)
    requires
        head + a + tail == head + b + tail,
    ensures
        a == b,
{
    let x = head + a + tail;
    let y = head + b + tail;
    assert(x.len() == y.len());
    assert(a.len() == b.len());
    assert forall|i: int| 0 <= i < a.len() implies a[i] == b[i] by {
        assert(x[head.len() + i] == a[i]);
        assert(y[head.len() + i] == b[i]);
    }
    assert(a =~= b);
}

/// A field tells its value.
pub proof fn lemma_field_value(label: Seq<char>, a: Seq<u8>, b: Seq<u8>)
    requires
        field(label, a) == field(label, b),
    ensures
        a == b,
{
    lemma_middle(encode_utf8(label), a, b, seq![0u8]);
}

/// A field that differs makes the message differ, whatever stands around it.
proof fn lemma_message_tells(
    head: Seq<u8>,
    label: Seq<char>,
    a: Seq<u8>,
    b: Seq<u8>,
    tail: Seq<u8>,
)
    requires
        a != b,
    ensures
        head + field(label, a) + tail != head + field(label, b) + tail,
{
    if head + field(label, a) + tail == head + field(label, b) + tail {
        lemma_middle(head, field(label, a), field(label, b), tail);
        lemma_field_value(label, a, b);
    }
}

/// Six parts in a row, grouped around each of them.
proof fn lemma_regrouped(a: Seq<u8>, b: Seq<u8>, c: Seq<u8>, d: Seq<u8>, e: Seq<u8>, f: Seq<u8>)
    ensures
        a + b + c + d + e + f == a + (b + c + d + e + f),
        a + b + c + d + e + f == a + b + (c + d + e + f),
        a + b + c + d + e + f == (a + b) + c + (d + e + f),
        a + b + c + d + e + f == (a + b + c) + d + (e + f),
        a + b + c + d + e + f == (a + b + c + d + e) + f + Seq::<u8>::empty(),
{
    assert(a + b + c + d + e + f =~= a + (b + c + d + e + f));
    assert(a + b + c + d + e + f =~= a + b + (c + d + e + f));
    assert(a + b + c + d + e + f =~= (a + b) + c + (d + e + f));
    assert(a + b + c + d + e + f =~= (a + b + c) + d + (e + f));
    assert(a + b + c + d + e + f =~= (a + b + c + d + e) + f + Seq::<u8>::empty());
}

/// What follows the resolved settings in the message.
spec fn after_values(f: FilesView, s: SettingsSnapshot) -> Seq<u8> {
    field("workspace_yaml="@, workspace_bytes(f, s.contents)) + field("npmrc="@, npmrc_bytes(f, s.contents)) + field(
        "pnpmfile="@,
        hook_bytes(s.pnpmfile),
    ) + field("host="@, host_bytes(s)) + field("patches="@, patch_bytes(f, s.contents))
}

/// The message, grouped around its parts.
proof fn lemma_message_grouped(f: FilesView, s: SettingsSnapshot)
    ensures
        ({
            let v = value_fields(s);
            let w = field("workspace_yaml="@, workspace_bytes(f, s.contents));
            let n = field("npmrc="@, npmrc_bytes(f, s.contents));
            let h = field("pnpmfile="@, hook_bytes(s.pnpmfile));
            let o = field("host="@, host_bytes(s));
            let p = field("patches="@, patch_bytes(f, s.contents));
            &&& settings_message(f, s) == v + after_values(f, s)
            &&& settings_message(f, s) == v + w + (n + h + o + p)
            &&& settings_message(f, s) == (v + w) + n + (h + o + p)
            &&& settings_message(f, s) == (v + w + n) + h + (o + p)
            &&& settings_message(f, s) == (v + w + n + h + o) + p + Seq::<u8>::empty()
        }),
{
    lemma_regrouped(
        value_fields(s),
        field("workspace_yaml="@, workspace_bytes(f, s.contents)),
        field("npmrc="@, npmrc_bytes(f, s.contents)),
        field("pnpmfile="@, hook_bytes(s.pnpmfile)),
        field("host="@, host_bytes(s)),
        field("patches="@, patch_bytes(f, s.contents)),
    );
}

/// Where exactly one group of files differs, and nothing else, the message
/// differs.
pub proof fn lemma_files_tell(f: FilesView, s: SettingsSnapshot, t: SettingsSnapshot)
    requires
        value_fields(s) == value_fields(t),
        host_bytes(s) == host_bytes(t),
        ({
            let w = workspace_bytes(f, s.contents) == workspace_bytes(f, t.contents);
            let n = npmrc_bytes(f, s.contents) == npmrc_bytes(f, t.contents);
            let h = hook_bytes(s.pnpmfile) == hook_bytes(t.pnpmfile);
            let p = patch_bytes(f, s.contents) == patch_bytes(f, t.contents);
            (!w && n && h && p) || (w && !n && h && p) || (w && n && !h && p) || (w && n && h && !p)
        }),
    ensures
        settings_message(f, s) != settings_message(f, t),
{
    let v = value_fields(s);
    let w = field("workspace_yaml="@, workspace_bytes(f, s.contents));
    let n = field("npmrc="@, npmrc_bytes(f, s.contents));
    let h = field("pnpmfile="@, hook_bytes(s.pnpmfile));
    let o = field("host="@, host_bytes(s));
    let p = field("patches="@, patch_bytes(f, s.contents));
    lemma_message_grouped(f, s);
    lemma_message_grouped(f, t);
    if workspace_bytes(f, s.contents) != workspace_bytes(f, t.contents) {
        lemma_message_tells(
            v,
            "workspace_yaml="@,
            workspace_bytes(f, s.contents),
            workspace_bytes(f, t.contents),
            n + h + o + p,
        );
    } else if npmrc_bytes(f, s.contents) != npmrc_bytes(f, t.contents) {
        lemma_message_tells(v + w, "npmrc="@, npmrc_bytes(f, s.contents), npmrc_bytes(f, t.contents), h + o + p);
    } else if hook_bytes(s.pnpmfile) != hook_bytes(t.pnpmfile) {
        lemma_message_tells(v + w + n, "pnpmfile="@, hook_bytes(s.pnpmfile), hook_bytes(t.pnpmfile), o + p);
    } else {
        lemma_message_tells(
            v + w + n + h + o,
            "patches="@,
            patch_bytes(f, s.contents),
            patch_bytes(f, t.contents),
            Seq::<u8>::empty(),
        );
    }
}

/// Adding, editing or removing the hook file changes what the digest is taken of.
pub proof fn law_hook_change_is_noticed(f: FilesView, s: SettingsSnapshot, hook: Option<LabeledFile>)
    requires
        hook_bytes(hook) != hook_bytes(s.pnpmfile),
    ensures
        settings_message(f, SettingsSnapshot { pnpmfile: hook, ..s }) != settings_message(f, s),
{
    lemma_files_tell(f, SettingsSnapshot { pnpmfile: hook, ..s }, s);
}

/// A hook file that appears, or that has other bytes at the same path, is noticed.
pub proof fn law_hook_bytes_tell(a: LabeledFile, b: LabeledFile)
    ensures
        hook_bytes(Some(a)) != hook_bytes(None),
        a.label@ == b.label@ && content_or_empty(a.content) != content_or_empty(b.content) ==> hook_bytes(Some(a))
            != hook_bytes(Some(b)),
{
    let none: Option<LabeledFile> = None;
    assert(hook_bytes(Some(a)).len() > 0);
    assert(hook_bytes(none).len() == 0);
    if a.label@ == b.label@ && hook_bytes(Some(a)) == hook_bytes(Some(b)) {
        let head = a.label@ + seq![0x1fu8];
        let e = Seq::<u8>::empty();
        assert(head + content_or_empty(a.content) + e =~= hook_bytes(Some(a)));
        assert(head + content_or_empty(b.content) + e =~= hook_bytes(Some(b)));
        lemma_middle(head, content_or_empty(a.content), content_or_empty(b.content), e);
    }
}

/// The resolved settings and what follows, grouped around the directories.
proof fn lemma_dirs_grouped(f: FilesView, s: SettingsSnapshot)
    ensures
        ({
            let a = tree_fields(s);
            let c = field("cache_dir="@, s.cache_dir@);
            let d = field("store_dir="@, dir_bytes(s.store_dir));
            let rest = shape_fields(s) + after_values(f, s);
            &&& settings_message(f, s) == a + c + (d + rest)
            &&& settings_message(f, s) == (a + c) + d + rest
        }),
{
    lemma_message_grouped(f, s);
    lemma_dirs_regrouped(
        tree_fields(s),
        field("cache_dir="@, s.cache_dir@),
        field("store_dir="@, dir_bytes(s.store_dir)),
        shape_fields(s),
        after_values(f, s),
    );
}

/// Five parts in a row, grouped around the second and the third.
proof fn lemma_dirs_regrouped(a: Seq<u8>, b: Seq<u8>, c: Seq<u8>, d: Seq<u8>, e: Seq<u8>)
    ensures
        (a + b + c + d) + e == a + b + (c + (d + e)),
        (a + b + c + d) + e == (a + b) + c + (d + e),
{
    assert((a + b + c + d) + e =~= a + b + (c + (d + e)));
    assert((a + b + c + d) + e =~= (a + b) + c + (d + e));
}

/// Another cache directory changes what the digest is taken of.
pub proof fn law_cache_dir_change_is_noticed(f: FilesView, s: SettingsSnapshot, dir: Vec<u8>)
    requires
        dir@ != s.cache_dir@,
    ensures
        settings_message(f, SettingsSnapshot { cache_dir: dir, ..s }) != settings_message(f, s),
{
    let t = SettingsSnapshot { cache_dir: dir, ..s };
    let rest = shape_fields(s) + after_values(f, s);
    lemma_dirs_grouped(f, s);
    lemma_dirs_grouped(f, t);
    assert(tree_fields(t) == tree_fields(s));
    assert(shape_fields(t) == shape_fields(s));
    assert(host_bytes(t) == host_bytes(s));
    assert(after_values(f, t) == after_values(f, s));
    lemma_message_tells(
        tree_fields(s),
        "cache_dir="@,
        dir@,
        s.cache_dir@,
        field("store_dir="@, dir_bytes(s.store_dir)) + rest,
    );
}

/// Another store directory changes what the digest is taken of.
pub proof fn law_store_dir_change_is_noticed(f: FilesView, s: SettingsSnapshot, dir: Option<Vec<u8>>)
    requires
        dir_bytes(dir) != dir_bytes(s.store_dir),
    ensures
        settings_message(f, SettingsSnapshot { store_dir: dir, ..s }) != settings_message(f, s),
{
    let t = SettingsSnapshot { store_dir: dir, ..s };
    let rest = shape_fields(s) + after_values(f, s);
    lemma_dirs_grouped(f, s);
    lemma_dirs_grouped(f, t);
    assert(tree_fields(t) == tree_fields(s));
    assert(shape_fields(t) == shape_fields(s));
    assert(host_bytes(t) == host_bytes(s));
    assert(after_values(f, t) == after_values(f, s));
    lemma_message_tells(
        tree_fields(s) + field("cache_dir="@, s.cache_dir@),
        "store_dir="@,
        dir_bytes(dir),
        dir_bytes(s.store_dir),
        rest,
    );
}

} // verus!
