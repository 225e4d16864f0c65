//! Which changed settings the digest of the settings notices.
use crate::state::settings::{
    bool_word, choice_word, dir_bytes, field, hook_bytes, host_bytes, lemma_field_value, lemma_middle, listed,
    npmrc_bytes, patch_bytes, settings_message, shape_fields, tree_fields, value_fields, workspace_bytes,
    SettingsSnapshot,
};
use crate::state::settings_files::FilesView;
use crate::text::lemma_bytes_determine_text;
use vstd::prelude::*;
use vstd::utf8::encode_utf8;

verus! {

/// The parts of a list, one after the other.
spec fn flat(parts: Seq<Seq<u8>>) -> Seq<u8>
    decreases parts.len(),
{
    if parts.len() == 0 {
        Seq::empty()
    } else {
        flat(parts.drop_last()) + parts.last()
    }
}

proof fn lemma_other_head(a: Seq<u8>, b: Seq<u8>, tail: Seq<u8>)
    requires
        a != b,
    ensures
        a + tail != b + tail,
{
    let e = Seq::<u8>::empty();
    if a + tail == b + tail {
        assert(e + a + tail =~= a + tail);
        assert(e + b + tail =~= b + tail);
        lemma_middle(e, a, b, tail);
    }
}

proof fn lemma_other_tail(head: Seq<u8>, a: Seq<u8>, b: Seq<u8>)
    requires
        a != b,
    ensures
        head + a != head + b,
{
    let e = Seq::<u8>::empty();
    if head + a == head + b {
        assert(head + a + e =~= head + a);
        assert(head + b + e =~= head + b);
        lemma_middle(head, a, b, e);
    }
}

/// One part that differs makes the whole differ.
proof fn lemma_flat_tells(p: Seq<Seq<u8>>, q: Seq<Seq<u8>>, k: int)
    requires
        p.len() == q.len(),
        0 <= k < p.len(),
        p[k] != q[k],
        forall|j: int| 0 <= j < p.len() && j != k ==> #[trigger] p[j] == q[j],
    ensures
        flat(p) != flat(q),
    decreases p.len(),
{
    let (a, b) = (p.drop_last(), q.drop_last());
    if k == p.len() - 1 {
        assert(a =~= b);
        lemma_other_tail(flat(a), p.last(), q.last());
    } else {
        assert(p[p.len() - 1] == q[p.len() - 1]);
        lemma_flat_tells(a, b, k);
        lemma_other_head(flat(a), flat(b), p.last());
    }
}

proof fn lemma_flat_eight(p0: Seq<u8>, p1: Seq<u8>, p2: Seq<u8>, p3: Seq<u8>, p4: Seq<u8>, p5: Seq<u8>, p6: Seq<u8>,
    p7: Seq<u8>)
    ensures
        flat(seq![p0, p1, p2, p3, p4, p5, p6, p7]) == p0 + p1 + p2 + p3 + p4 + p5 + p6 + p7,
{
    let e = Seq::<Seq<u8>>::empty();
    assert(flat(e) =~= Seq::<u8>::empty());
    let s1 = seq![p0];
    assert(s1.drop_last() =~= e);
    assert(s1.last() == p0);
    assert(flat(s1) =~= p0);
    let s2 = seq![p0, p1];
    assert(s2.drop_last() =~= s1);
    assert(s2.last() == p1);
    assert(flat(s2) == flat(s1) + p1);
    let s3 = seq![p0, p1, p2];
    assert(s3.drop_last() =~= s2);
    assert(s3.last() == p2);
    assert(flat(s3) == flat(s2) + p2);
    let s4 = seq![p0, p1, p2, p3];
    assert(s4.drop_last() =~= s3);
    assert(s4.last() == p3);
    assert(flat(s4) == flat(s3) + p3);
    let s5 = seq![p0, p1, p2, p3, p4];
    assert(s5.drop_last() =~= s4);
    assert(s5.last() == p4);
    assert(flat(s5) == flat(s4) + p4);
    let s6 = seq![p0, p1, p2, p3, p4, p5];
    assert(s6.drop_last() =~= s5);
    assert(s6.last() == p5);
    assert(flat(s6) == flat(s5) + p5);
    let s7 = seq![p0, p1, p2, p3, p4, p5, p6];
    assert(s7.drop_last() =~= s6);
    assert(s7.last() == p6);
    assert(flat(s7) == flat(s6) + p6);
    let s8 = seq![p0, p1, p2, p3, p4, p5, p6, p7];
    assert(s8.drop_last() =~= s7);
    assert(s8.last() == p7);
    assert(flat(s8) == flat(s7) + p7);
}

proof fn lemma_flat_nine(p0: Seq<u8>, p1: Seq<u8>, p2: Seq<u8>, p3: Seq<u8>, p4: Seq<u8>, p5: Seq<u8>, p6: Seq<u8>,
    p7: Seq<u8>, p8: Seq<u8>)
    ensures
        flat(seq![p0, p1, p2, p3, p4, p5, p6, p7, p8]) == p0 + p1 + p2 + p3 + p4 + p5 + p6 + p7 + p8,
{
    let e = Seq::<Seq<u8>>::empty();
    assert(flat(e) =~= Seq::<u8>::empty());
    let s1 = seq![p0];
    assert(s1.drop_last() =~= e);
    assert(s1.last() == p0);
    assert(flat(s1) =~= p0);
    let s2 = seq![p0, p1];
    assert(s2.drop_last() =~= s1);
    assert(s2.last() == p1);
    assert(flat(s2) == flat(s1) + p1);
    let s3 = seq![p0, p1, p2];
    assert(s3.drop_last() =~= s2);
    assert(s3.last() == p2);
    assert(flat(s3) == flat(s2) + p2);
    let s4 = seq![p0, p1, p2, p3];
    assert(s4.drop_last() =~= s3);
    assert(s4.last() == p3);
    assert(flat(s4) == flat(s3) + p3);
    let s5 = seq![p0, p1, p2, p3, p4];
    assert(s5.drop_last() =~= s4);
    assert(s5.last() == p4);
    assert(flat(s5) == flat(s4) + p4);
    let s6 = seq![p0, p1, p2, p3, p4, p5];
    assert(s6.drop_last() =~= s5);
    assert(s6.last() == p5);
    assert(flat(s6) == flat(s5) + p5);
    let s7 = seq![p0, p1, p2, p3, p4, p5, p6];
    assert(s7.drop_last() =~= s6);
    assert(s7.last() == p6);
    assert(flat(s7) == flat(s6) + p6);
    let s8 = seq![p0, p1, p2, p3, p4, p5, p6, p7];
    assert(s8.drop_last() =~= s7);
    assert(s8.last() == p7);
    assert(flat(s8) == flat(s7) + p7);
    let s9 = seq![p0, p1, p2, p3, p4, p5, p6, p7, p8];
    assert(s9.drop_last() =~= s8);
    assert(s9.last() == p8);
    assert(flat(s9) == flat(s8) + p8);
}

/// A setting with its label and its end mark.
#[verifier::opaque]
spec fn part(label: Seq<char>, value: Seq<u8>) -> Seq<u8> {
    field(label, value)
}

/// The settings that decide how the tree is laid out and linked, part by part.
spec fn tree_parts(s: SettingsSnapshot) -> Seq<Seq<u8>> {
    seq![
        part("node_linker="@, encode_utf8(s.node_linker@)),
        part("hoist="@, encode_utf8(bool_word(s.hoist))),
        part("shamefully_hoist="@, encode_utf8(bool_word(s.shamefully_hoist))),
        part("hoist_pattern="@, listed(s.hoist_pattern@, s.hoist_pattern@.len() as int)),
        part("public_hoist_pattern="@, listed(s.public_hoist_pattern@, s.public_hoist_pattern@.len() as int)),
        part("modules_dir="@, encode_utf8(s.modules_dir@)),
        part("package_import_method="@, encode_utf8(s.package_import_method@)),
        part("enable_gvs="@, encode_utf8(choice_word(s.enable_global_virtual_store))),
    ]
}

/// The settings that follow the directories, part by part.
spec fn shape_parts(s: SettingsSnapshot) -> Seq<Seq<u8>> {
    seq![
        part("lockfile="@, encode_utf8(bool_word(s.lockfile))),
        part("catalog_prune="@, encode_utf8(bool_word(s.catalog_prune))),
        part("enable_modules_dir="@, encode_utf8(bool_word(s.enable_modules_dir))),
        part("virtual_store_only="@, encode_utf8(bool_word(s.virtual_store_only))),
        part("hoist_workspace_packages="@, encode_utf8(bool_word(s.hoist_workspace_packages))),
        part("hoisting_limits="@, encode_utf8(s.hoisting_limits@)),
        part("dedupe_direct_deps="@, encode_utf8(bool_word(s.dedupe_direct_deps))),
        part("symlink="@, encode_utf8(bool_word(s.symlink))),
        part("disable_gvs_for_packages="@, listed(s.disable_gvs_for_packages@,
            s.disable_gvs_for_packages@.len() as int)),
    ]
}

proof fn lemma_parts(s: SettingsSnapshot)
    ensures
        tree_fields(s) == flat(tree_parts(s)),
        shape_fields(s) == flat(shape_parts(s)),
{
    reveal(part);
    lemma_flat_eight(
        field("node_linker="@, encode_utf8(s.node_linker@)),
        field("hoist="@, encode_utf8(bool_word(s.hoist))),
        field("shamefully_hoist="@, encode_utf8(bool_word(s.shamefully_hoist))),
        field("hoist_pattern="@, listed(s.hoist_pattern@, s.hoist_pattern@.len() as int)),
        field("public_hoist_pattern="@, listed(s.public_hoist_pattern@, s.public_hoist_pattern@.len() as int)),
        field("modules_dir="@, encode_utf8(s.modules_dir@)),
        field("package_import_method="@, encode_utf8(s.package_import_method@)),
        field("enable_gvs="@, encode_utf8(choice_word(s.enable_global_virtual_store))),
    );
    lemma_flat_nine(
        field("lockfile="@, encode_utf8(bool_word(s.lockfile))),
        field("catalog_prune="@, encode_utf8(bool_word(s.catalog_prune))),
        field("enable_modules_dir="@, encode_utf8(bool_word(s.enable_modules_dir))),
        field("virtual_store_only="@, encode_utf8(bool_word(s.virtual_store_only))),
        field("hoist_workspace_packages="@, encode_utf8(bool_word(s.hoist_workspace_packages))),
        field("hoisting_limits="@, encode_utf8(s.hoisting_limits@)),
        field("dedupe_direct_deps="@, encode_utf8(bool_word(s.dedupe_direct_deps))),
        field("symlink="@, encode_utf8(bool_word(s.symlink))),
        field("disable_gvs_for_packages="@, listed(s.disable_gvs_for_packages@,
            s.disable_gvs_for_packages@.len() as int)),
    );
}

/// Resolved settings that differ make the message differ.
proof fn lemma_values_tell(f: FilesView, s: SettingsSnapshot, t: SettingsSnapshot)
    requires
        value_fields(s) != value_fields(t),
        t.contents == s.contents,
        t.pnpmfile == s.pnpmfile,
        host_bytes(t) == host_bytes(s),
    ensures
        settings_message(f, s) != settings_message(f, t),
{
    let w = field("workspace_yaml="@, workspace_bytes(f, s.contents));
    let n = field("npmrc="@, npmrc_bytes(f, s.contents));
    let h = field("pnpmfile="@, hook_bytes(s.pnpmfile));
    let o = field("host="@, host_bytes(s));
    let p = field("patches="@, patch_bytes(f, s.contents));
    let (a, b) = (value_fields(s), value_fields(t));
    lemma_other_head(a, b, w);
    lemma_other_head(a + w, b + w, n);
    lemma_other_head(a + w + n, b + w + n, h);
    lemma_other_head(a + w + n + h, b + w + n + h, o);
    lemma_other_head(a + w + n + h + o, b + w + n + h + o, p);
}

/// One changed part of the settings for the tree makes the message differ.
proof fn lemma_tree_tells(f: FilesView, s: SettingsSnapshot, t: SettingsSnapshot, k: int)
    requires
        0 <= k < 8,
        tree_parts(s)[k] != tree_parts(t)[k],
        forall|j: int| 0 <= j < 8 && j != k ==> #[trigger] tree_parts(s)[j] == tree_parts(t)[j],
        shape_parts(s) == shape_parts(t),
        t.cache_dir == s.cache_dir,
        t.store_dir == s.store_dir,
        t.contents == s.contents,
        t.pnpmfile == s.pnpmfile,
        host_bytes(t) == host_bytes(s),
    ensures
        settings_message(f, s) != settings_message(f, t),
{
    lemma_parts(s);
    lemma_parts(t);
    lemma_flat_tells(tree_parts(s), tree_parts(t), k);
    let (a, b) = (tree_fields(s), tree_fields(t));
    let c = field("cache_dir="@, s.cache_dir@);
    let d = field("store_dir="@, dir_bytes(s.store_dir));
    lemma_other_head(a, b, c);
    lemma_other_head(a + c, b + c, d);
    lemma_other_head(a + c + d, b + c + d, shape_fields(s));
    lemma_values_tell(f, s, t);
}

/// One changed part of the settings behind the directories makes the message differ.
proof fn lemma_shape_tells(f: FilesView, s: SettingsSnapshot, t: SettingsSnapshot, k: int)
    requires
        0 <= k < 9,
        shape_parts(s)[k] != shape_parts(t)[k],
        forall|j: int| 0 <= j < 9 && j != k ==> #[trigger] shape_parts(s)[j] == shape_parts(t)[j],
        tree_parts(s) == tree_parts(t),
        t.cache_dir == s.cache_dir,
        t.store_dir == s.store_dir,
        t.contents == s.contents,
        t.pnpmfile == s.pnpmfile,
        host_bytes(t) == host_bytes(s),
    ensures
        settings_message(f, s) != settings_message(f, t),
{
    lemma_parts(s);
    lemma_parts(t);
    lemma_flat_tells(shape_parts(s), shape_parts(t), k);
    let head = tree_fields(s) + field("cache_dir="@, s.cache_dir@) + field("store_dir="@, dir_bytes(s.store_dir));
    lemma_other_tail(head, shape_fields(s), shape_fields(t));
    lemma_values_tell(f, s, t);
}

proof fn lemma_words_tell(label: Seq<char>, a: Seq<char>, b: Seq<char>)
    requires
        a != b,
    ensures
        part(label, encode_utf8(a)) != part(label, encode_utf8(b)),
{
    reveal(part);
    if field(label, encode_utf8(a)) == field(label, encode_utf8(b)) {
        lemma_field_value(label, encode_utf8(a), encode_utf8(b));
        lemma_bytes_determine_text(a, b);
    }
}

proof fn lemma_bool_words(a: bool)
    ensures
        bool_word(a) != bool_word(!a),
{
    reveal_strlit("true");
    reveal_strlit("false");
    assert("true"@.len() != "false"@.len());
}

proof fn lemma_choice_words(a: Option<bool>, b: Option<bool>)
    requires
        a != b,
    ensures
        choice_word(a) != choice_word(b),
{
    reveal_strlit("None");
    reveal_strlit("Some(true)");
    reveal_strlit("Some(false)");
    assert("None"@.len() == 4 && "Some(true)"@.len() == 10 && "Some(false)"@.len() == 11);
}

proof fn lemma_listed_grows(a: Seq<String>, b: Seq<String>, label: Seq<char>)
    requires
        b.len() == a.len() + 1,
        b.drop_last() == a,
    ensures
        part(label, listed(a, a.len() as int)) != part(label, listed(b, b.len() as int)),
{
    reveal(part);
    let n = a.len() as int;
    lemma_listed_prefix(a, b, n);
    assert(listed(b, n + 1).len() > listed(b, n).len());
    if field(label, listed(a, n)) == field(label, listed(b, n + 1)) {
        lemma_field_value(label, listed(a, n), listed(b, n + 1));
    }
}

proof fn lemma_listed_prefix(a: Seq<String>, b: Seq<String>, n: int)
    requires
        0 <= n <= a.len(),
        n <= b.len(),
        forall|i: int| 0 <= i < n ==> #[trigger] a[i] == b[i],
    ensures
        listed(a, n) == listed(b, n),
    decreases n,
{
    if n > 0 {
        lemma_listed_prefix(a, b, n - 1);
        assert(a[n - 1] == b[n - 1]);
    }
}

/// A host that differs in one word makes the message differ.
proof fn lemma_host_tells(f: FilesView, s: SettingsSnapshot, t: SettingsSnapshot)
    requires
        value_fields(s) == value_fields(t),
        t.contents == s.contents,
        t.pnpmfile == s.pnpmfile,
        (s.os@ != t.os@ && s.arch@ == t.arch@ && s.libc@ == t.libc@) || (s.os@ == t.os@ && s.arch@ != t.arch@ && s.libc@
            == t.libc@) || (s.os@ == t.os@ && s.arch@ == t.arch@ && s.libc@ != t.libc@),
    ensures
        settings_message(f, s) != settings_message(f, t),
{
    let mark = seq![0x1fu8];
    let (o, a, c) = (encode_utf8(s.os@), encode_utf8(s.arch@), encode_utf8(s.libc@));
    let (p, b, d) = (encode_utf8(t.os@), encode_utf8(t.arch@), encode_utf8(t.libc@));
    if s.os@ != t.os@ {
        if o == p {
            lemma_bytes_determine_text(s.os@, t.os@);
        }
        lemma_other_head(o, p, mark);
        lemma_other_head(o + mark, p + mark, a);
        lemma_other_head(o + mark + a, p + mark + a, mark);
        lemma_other_head(o + mark + a + mark, p + mark + a + mark, c);
    } else if s.arch@ != t.arch@ {
        if a == b {
            lemma_bytes_determine_text(s.arch@, t.arch@);
        }
        lemma_other_tail(o + mark, a, b);
        lemma_other_head(o + mark + a, o + mark + b, mark);
        lemma_other_head(o + mark + a + mark, o + mark + b + mark, c);
    } else {
        if c == d {
            lemma_bytes_determine_text(s.libc@, t.libc@);
        }
        lemma_other_tail(o + mark + a + mark, c, d);
    }
    assert(host_bytes(s) != host_bytes(t));
    let head = value_fields(s) + field("workspace_yaml="@, workspace_bytes(f, s.contents)) + field(
        "npmrc="@,
        npmrc_bytes(f, s.contents),
    ) + field("pnpmfile="@, hook_bytes(s.pnpmfile));
    let x = field("host="@, host_bytes(s));
    let y = field("host="@, host_bytes(t));
    if x == y {
        lemma_field_value("host="@, host_bytes(s), host_bytes(t));
    }
    lemma_other_tail(head, x, y);
    lemma_other_head(head + x, head + y, field("patches="@, patch_bytes(f, s.contents)));
}

proof fn lemma_node_linker_parts(s: SettingsSnapshot, t: SettingsSnapshot, word: String)
    requires
        t == (SettingsSnapshot { node_linker: word, ..s }),
        word@ != s.node_linker@,
    ensures
        tree_parts(t)[0] != tree_parts(s)[0],
        forall|j: int| 0 <= j < 8 && j != 0 ==> #[trigger] tree_parts(t)[j] == tree_parts(s)[j],
        shape_parts(t) == shape_parts(s),
        host_bytes(t) == host_bytes(s),
{
    lemma_words_tell("node_linker="@, word@, s.node_linker@);
}

/// Another word for the way packages are linked changes what the digest is taken of.
pub proof fn law_node_linker_change_is_noticed(f: FilesView, s: SettingsSnapshot, word: String)
    requires
        word@ != s.node_linker@,
    ensures
        settings_message(f, SettingsSnapshot { node_linker: word, ..s }) != settings_message(f, s),
{
    let t = SettingsSnapshot { node_linker: word, ..s };
    lemma_node_linker_parts(s, t, word);
    lemma_tree_tells(f, t, s, 0);
}

proof fn lemma_hoist_parts(s: SettingsSnapshot, t: SettingsSnapshot)
    requires
        t == (SettingsSnapshot { hoist: !s.hoist, ..s }),
    ensures
        tree_parts(t)[1] != tree_parts(s)[1],
        forall|j: int| 0 <= j < 8 && j != 1 ==> #[trigger] tree_parts(t)[j] == tree_parts(s)[j],
        shape_parts(t) == shape_parts(s),
        host_bytes(t) == host_bytes(s),
{
    lemma_bool_words(s.hoist);
    lemma_words_tell("hoist="@, bool_word(!s.hoist), bool_word(s.hoist));
}

/// Switching hoisting on or off changes what the digest is taken of.
pub proof fn law_hoist_change_is_noticed(f: FilesView, s: SettingsSnapshot)
    ensures
        settings_message(f, SettingsSnapshot { hoist: !s.hoist, ..s }) != settings_message(f, s),
{
    let t = SettingsSnapshot { hoist: !s.hoist, ..s };
    lemma_hoist_parts(s, t);
    lemma_tree_tells(f, t, s, 1);
}

proof fn lemma_shamefully_hoist_parts(s: SettingsSnapshot, t: SettingsSnapshot)
    requires
        t == (SettingsSnapshot { shamefully_hoist: !s.shamefully_hoist, ..s }),
    ensures
        tree_parts(t)[2] != tree_parts(s)[2],
        forall|j: int| 0 <= j < 8 && j != 2 ==> #[trigger] tree_parts(t)[j] == tree_parts(s)[j],
        shape_parts(t) == shape_parts(s),
        host_bytes(t) == host_bytes(s),
{
    lemma_bool_words(s.shamefully_hoist);
    lemma_words_tell("shamefully_hoist="@, bool_word(!s.shamefully_hoist), bool_word(s.shamefully_hoist));
}

/// Switching hoisting everything on or off changes what the digest is taken of.
pub proof fn law_shamefully_hoist_change_is_noticed(f: FilesView, s: SettingsSnapshot)
    ensures
        settings_message(f, SettingsSnapshot { shamefully_hoist: !s.shamefully_hoist, ..s }) != settings_message(f, s),
{
    let t = SettingsSnapshot { shamefully_hoist: !s.shamefully_hoist, ..s };
    lemma_shamefully_hoist_parts(s, t);
    lemma_tree_tells(f, t, s, 2);
}

proof fn lemma_hoist_pattern_parts(s: SettingsSnapshot, t: SettingsSnapshot, list: Vec<String>)
    requires
        t == (SettingsSnapshot { hoist_pattern: list, ..s }),
        list@.len() == s.hoist_pattern@.len() + 1,
        list@.drop_last() == s.hoist_pattern@,
    ensures
        tree_parts(t)[3] != tree_parts(s)[3],
        forall|j: int| 0 <= j < 8 && j != 3 ==> #[trigger] tree_parts(t)[j] == tree_parts(s)[j],
        shape_parts(t) == shape_parts(s),
        host_bytes(t) == host_bytes(s),
{
    lemma_listed_grows(s.hoist_pattern@, list@, "hoist_pattern="@);
}

/// One more entry among the packages that are hoisted changes what the digest is taken
/// of.
pub proof fn law_hoist_pattern_change_is_noticed(f: FilesView, s: SettingsSnapshot, list: Vec<String>)
    requires
        list@.len() == s.hoist_pattern@.len() + 1,
        list@.drop_last() == s.hoist_pattern@,
    ensures
        settings_message(f, SettingsSnapshot { hoist_pattern: list, ..s }) != settings_message(f, s),
{
    let t = SettingsSnapshot { hoist_pattern: list, ..s };
    lemma_hoist_pattern_parts(s, t, list);
    lemma_tree_tells(f, t, s, 3);
}

proof fn lemma_public_hoist_pattern_parts(s: SettingsSnapshot, t: SettingsSnapshot, list: Vec<String>)
    requires
        t == (SettingsSnapshot { public_hoist_pattern: list, ..s }),
        list@.len() == s.public_hoist_pattern@.len() + 1,
        list@.drop_last() == s.public_hoist_pattern@,
    ensures
        tree_parts(t)[4] != tree_parts(s)[4],
        forall|j: int| 0 <= j < 8 && j != 4 ==> #[trigger] tree_parts(t)[j] == tree_parts(s)[j],
        shape_parts(t) == shape_parts(s),
        host_bytes(t) == host_bytes(s),
{
    lemma_listed_grows(s.public_hoist_pattern@, list@, "public_hoist_pattern="@);
}

/// One more entry among the packages that are hoisted to the root changes what the digest is taken
/// of.
pub proof fn law_public_hoist_pattern_change_is_noticed(f: FilesView, s: SettingsSnapshot, list: Vec<String>)
    requires
        list@.len() == s.public_hoist_pattern@.len() + 1,
        list@.drop_last() == s.public_hoist_pattern@,
    ensures
        settings_message(f, SettingsSnapshot { public_hoist_pattern: list, ..s }) != settings_message(f, s),
{
    let t = SettingsSnapshot { public_hoist_pattern: list, ..s };
    lemma_public_hoist_pattern_parts(s, t, list);
    lemma_tree_tells(f, t, s, 4);
}

proof fn lemma_modules_dir_parts(s: SettingsSnapshot, t: SettingsSnapshot, word: String)
    requires
        t == (SettingsSnapshot { modules_dir: word, ..s }),
        word@ != s.modules_dir@,
    ensures
        tree_parts(t)[5] != tree_parts(s)[5],
        forall|j: int| 0 <= j < 8 && j != 5 ==> #[trigger] tree_parts(t)[j] == tree_parts(s)[j],
        shape_parts(t) == shape_parts(s),
        host_bytes(t) == host_bytes(s),
{
    lemma_words_tell("modules_dir="@, word@, s.modules_dir@);
}

/// Another word for the modules directory changes what the digest is taken of.
pub proof fn law_modules_dir_change_is_noticed(f: FilesView, s: SettingsSnapshot, word: String)
    requires
        word@ != s.modules_dir@,
    ensures
        settings_message(f, SettingsSnapshot { modules_dir: word, ..s }) != settings_message(f, s),
{
    let t = SettingsSnapshot { modules_dir: word, ..s };
    lemma_modules_dir_parts(s, t, word);
    lemma_tree_tells(f, t, s, 5);
}

proof fn lemma_package_import_method_parts(s: SettingsSnapshot, t: SettingsSnapshot, word: String)
    requires
        t == (SettingsSnapshot { package_import_method: word, ..s }),
        word@ != s.package_import_method@,
    ensures
        tree_parts(t)[6] != tree_parts(s)[6],
        forall|j: int| 0 <= j < 8 && j != 6 ==> #[trigger] tree_parts(t)[j] == tree_parts(s)[j],
        shape_parts(t) == shape_parts(s),
        host_bytes(t) == host_bytes(s),
{
    lemma_words_tell("package_import_method="@, word@, s.package_import_method@);
}

/// Another word for the way files are imported changes what the digest is taken of.
pub proof fn law_package_import_method_change_is_noticed(f: FilesView, s: SettingsSnapshot, word: String)
    requires
        word@ != s.package_import_method@,
    ensures
        settings_message(f, SettingsSnapshot { package_import_method: word, ..s }) != settings_message(f, s),
{
    let t = SettingsSnapshot { package_import_method: word, ..s };
    lemma_package_import_method_parts(s, t, word);
    lemma_tree_tells(f, t, s, 6);
}

proof fn lemma_enable_global_virtual_store_parts(s: SettingsSnapshot, t: SettingsSnapshot, choice: Option<bool>)
    requires
        t == (SettingsSnapshot { enable_global_virtual_store: choice, ..s }),
        choice != s.enable_global_virtual_store,
    ensures
        tree_parts(t)[7] != tree_parts(s)[7],
        forall|j: int| 0 <= j < 8 && j != 7 ==> #[trigger] tree_parts(t)[j] == tree_parts(s)[j],
        shape_parts(t) == shape_parts(s),
        host_bytes(t) == host_bytes(s),
{
    lemma_choice_words(choice, s.enable_global_virtual_store);
    lemma_words_tell("enable_gvs="@, choice_word(choice), choice_word(s.enable_global_virtual_store));
}

/// Choosing for or against the global virtual store, or leaving that open, changes
/// what the digest is taken of.
pub proof fn law_enable_global_virtual_store_change_is_noticed(f: FilesView, s: SettingsSnapshot, choice: Option<bool>)
    requires
        choice != s.enable_global_virtual_store,
    ensures
        settings_message(f, SettingsSnapshot { enable_global_virtual_store: choice, ..s }) != settings_message(f, s),
{
    let t = SettingsSnapshot { enable_global_virtual_store: choice, ..s };
    lemma_enable_global_virtual_store_parts(s, t, choice);
    lemma_tree_tells(f, t, s, 7);
}

proof fn lemma_lockfile_parts(s: SettingsSnapshot, t: SettingsSnapshot)
    requires
        t == (SettingsSnapshot { lockfile: !s.lockfile, ..s }),
    ensures
        shape_parts(t)[0] != shape_parts(s)[0],
        forall|j: int| 0 <= j < 9 && j != 0 ==> #[trigger] shape_parts(t)[j] == shape_parts(s)[j],
        tree_parts(t) == tree_parts(s),
        host_bytes(t) == host_bytes(s),
{
    lemma_bool_words(s.lockfile);
    lemma_words_tell("lockfile="@, bool_word(!s.lockfile), bool_word(s.lockfile));
}

/// Switching the lockfile on or off changes what the digest is taken of.
pub proof fn law_lockfile_change_is_noticed(f: FilesView, s: SettingsSnapshot)
    ensures
        settings_message(f, SettingsSnapshot { lockfile: !s.lockfile, ..s }) != settings_message(f, s),
{
    let t = SettingsSnapshot { lockfile: !s.lockfile, ..s };
    lemma_lockfile_parts(s, t);
    lemma_shape_tells(f, t, s, 0);
}

proof fn lemma_catalog_prune_parts(s: SettingsSnapshot, t: SettingsSnapshot)
    requires
        t == (SettingsSnapshot { catalog_prune: !s.catalog_prune, ..s }),
    ensures
        shape_parts(t)[1] != shape_parts(s)[1],
        forall|j: int| 0 <= j < 9 && j != 1 ==> #[trigger] shape_parts(t)[j] == shape_parts(s)[j],
        tree_parts(t) == tree_parts(s),
        host_bytes(t) == host_bytes(s),
{
    lemma_bool_words(s.catalog_prune);
    lemma_words_tell("catalog_prune="@, bool_word(!s.catalog_prune), bool_word(s.catalog_prune));
}

/// Switching dropping unused catalog entries on or off changes what the digest is taken of.
pub proof fn law_catalog_prune_change_is_noticed(f: FilesView, s: SettingsSnapshot)
    ensures
        settings_message(f, SettingsSnapshot { catalog_prune: !s.catalog_prune, ..s }) != settings_message(f, s),
{
    let t = SettingsSnapshot { catalog_prune: !s.catalog_prune, ..s };
    lemma_catalog_prune_parts(s, t);
    lemma_shape_tells(f, t, s, 1);
}

proof fn lemma_enable_modules_dir_parts(s: SettingsSnapshot, t: SettingsSnapshot)
    requires
        t == (SettingsSnapshot { enable_modules_dir: !s.enable_modules_dir, ..s }),
    ensures
        shape_parts(t)[2] != shape_parts(s)[2],
        forall|j: int| 0 <= j < 9 && j != 2 ==> #[trigger] shape_parts(t)[j] == shape_parts(s)[j],
        tree_parts(t) == tree_parts(s),
        host_bytes(t) == host_bytes(s),
{
    lemma_bool_words(s.enable_modules_dir);
    lemma_words_tell("enable_modules_dir="@, bool_word(!s.enable_modules_dir), bool_word(s.enable_modules_dir));
}

/// Switching the modules directory altogether on or off changes what the digest is taken of.
pub proof fn law_enable_modules_dir_change_is_noticed(f: FilesView, s: SettingsSnapshot)
    ensures
        settings_message(f, SettingsSnapshot { enable_modules_dir: !s.enable_modules_dir,
            ..s }) != settings_message(f, s),
{
    let t = SettingsSnapshot { enable_modules_dir: !s.enable_modules_dir, ..s };
    lemma_enable_modules_dir_parts(s, t);
    lemma_shape_tells(f, t, s, 2);
}

proof fn lemma_virtual_store_only_parts(s: SettingsSnapshot, t: SettingsSnapshot)
    requires
        t == (SettingsSnapshot { virtual_store_only: !s.virtual_store_only, ..s }),
    ensures
        shape_parts(t)[3] != shape_parts(s)[3],
        forall|j: int| 0 <= j < 9 && j != 3 ==> #[trigger] shape_parts(t)[j] == shape_parts(s)[j],
        tree_parts(t) == tree_parts(s),
        host_bytes(t) == host_bytes(s),
{
    lemma_bool_words(s.virtual_store_only);
    lemma_words_tell("virtual_store_only="@, bool_word(!s.virtual_store_only), bool_word(s.virtual_store_only));
}

/// Switching filling the virtual store alone on or off changes what the digest is taken of.
pub proof fn law_virtual_store_only_change_is_noticed(f: FilesView, s: SettingsSnapshot)
    ensures
        settings_message(f, SettingsSnapshot { virtual_store_only: !s.virtual_store_only,
            ..s }) != settings_message(f, s),
{
    let t = SettingsSnapshot { virtual_store_only: !s.virtual_store_only, ..s };
    lemma_virtual_store_only_parts(s, t);
    lemma_shape_tells(f, t, s, 3);
}

proof fn lemma_hoist_workspace_packages_parts(s: SettingsSnapshot, t: SettingsSnapshot)
    requires
        t == (SettingsSnapshot { hoist_workspace_packages: !s.hoist_workspace_packages, ..s }),
    ensures
        shape_parts(t)[4] != shape_parts(s)[4],
        forall|j: int| 0 <= j < 9 && j != 4 ==> #[trigger] shape_parts(t)[j] == shape_parts(s)[j],
        tree_parts(t) == tree_parts(s),
        host_bytes(t) == host_bytes(s),
{
    lemma_bool_words(s.hoist_workspace_packages);
    lemma_words_tell("hoist_workspace_packages="@, bool_word(!s.hoist_workspace_packages),
        bool_word(s.hoist_workspace_packages));
}

/// Switching hoisting workspace packages on or off changes what the digest is taken of.
pub proof fn law_hoist_workspace_packages_change_is_noticed(f: FilesView, s: SettingsSnapshot)
    ensures
        settings_message(f, SettingsSnapshot { hoist_workspace_packages: !s.hoist_workspace_packages,
            ..s }) != settings_message(f, s),
{
    let t = SettingsSnapshot { hoist_workspace_packages: !s.hoist_workspace_packages, ..s };
    lemma_hoist_workspace_packages_parts(s, t);
    lemma_shape_tells(f, t, s, 4);
}

proof fn lemma_hoisting_limits_parts(s: SettingsSnapshot, t: SettingsSnapshot, word: String)
    requires
        t == (SettingsSnapshot { hoisting_limits: word, ..s }),
        word@ != s.hoisting_limits@,
    ensures
        shape_parts(t)[5] != shape_parts(s)[5],
        forall|j: int| 0 <= j < 9 && j != 5 ==> #[trigger] shape_parts(t)[j] == shape_parts(s)[j],
        tree_parts(t) == tree_parts(s),
        host_bytes(t) == host_bytes(s),
{
    lemma_words_tell("hoisting_limits="@, word@, s.hoisting_limits@);
}

/// Another word for the limits of hoisting changes what the digest is taken of.
pub proof fn law_hoisting_limits_change_is_noticed(f: FilesView, s: SettingsSnapshot, word: String)
    requires
        word@ != s.hoisting_limits@,
    ensures
        settings_message(f, SettingsSnapshot { hoisting_limits: word, ..s }) != settings_message(f, s),
{
    let t = SettingsSnapshot { hoisting_limits: word, ..s };
    lemma_hoisting_limits_parts(s, t, word);
    lemma_shape_tells(f, t, s, 5);
}

proof fn lemma_dedupe_direct_deps_parts(s: SettingsSnapshot, t: SettingsSnapshot)
    requires
        t == (SettingsSnapshot { dedupe_direct_deps: !s.dedupe_direct_deps, ..s }),
    ensures
        shape_parts(t)[6] != shape_parts(s)[6],
        forall|j: int| 0 <= j < 9 && j != 6 ==> #[trigger] shape_parts(t)[j] == shape_parts(s)[j],
        tree_parts(t) == tree_parts(s),
        host_bytes(t) == host_bytes(s),
{
    lemma_bool_words(s.dedupe_direct_deps);
    lemma_words_tell("dedupe_direct_deps="@, bool_word(!s.dedupe_direct_deps), bool_word(s.dedupe_direct_deps));
}

/// Switching sharing direct dependencies on or off changes what the digest is taken of.
pub proof fn law_dedupe_direct_deps_change_is_noticed(f: FilesView, s: SettingsSnapshot)
    ensures
        settings_message(f, SettingsSnapshot { dedupe_direct_deps: !s.dedupe_direct_deps,
            ..s }) != settings_message(f, s),
{
    let t = SettingsSnapshot { dedupe_direct_deps: !s.dedupe_direct_deps, ..s };
    lemma_dedupe_direct_deps_parts(s, t);
    lemma_shape_tells(f, t, s, 6);
}

proof fn lemma_symlink_parts(s: SettingsSnapshot, t: SettingsSnapshot)
    requires
        t == (SettingsSnapshot { symlink: !s.symlink, ..s }),
    ensures
        shape_parts(t)[7] != shape_parts(s)[7],
        forall|j: int| 0 <= j < 9 && j != 7 ==> #[trigger] shape_parts(t)[j] == shape_parts(s)[j],
        tree_parts(t) == tree_parts(s),
        host_bytes(t) == host_bytes(s),
{
    lemma_bool_words(s.symlink);
    lemma_words_tell("symlink="@, bool_word(!s.symlink), bool_word(s.symlink));
}

/// Switching linking packages on or off changes what the digest is taken of.
pub proof fn law_symlink_change_is_noticed(f: FilesView, s: SettingsSnapshot)
    ensures
        settings_message(f, SettingsSnapshot { symlink: !s.symlink, ..s }) != settings_message(f, s),
{
    let t = SettingsSnapshot { symlink: !s.symlink, ..s };
    lemma_symlink_parts(s, t);
    lemma_shape_tells(f, t, s, 7);
}

proof fn lemma_disable_gvs_for_packages_parts(s: SettingsSnapshot, t: SettingsSnapshot, list: Vec<String>)
    requires
        t == (SettingsSnapshot { disable_gvs_for_packages: list, ..s }),
        list@.len() == s.disable_gvs_for_packages@.len() + 1,
        list@.drop_last() == s.disable_gvs_for_packages@,
    ensures
        shape_parts(t)[8] != shape_parts(s)[8],
        forall|j: int| 0 <= j < 9 && j != 8 ==> #[trigger] shape_parts(t)[j] == shape_parts(s)[j],
        tree_parts(t) == tree_parts(s),
        host_bytes(t) == host_bytes(s),
{
    lemma_listed_grows(s.disable_gvs_for_packages@, list@, "disable_gvs_for_packages="@);
}

/// One more entry among the packages that keep out of the global virtual store changes what the digest is taken
/// of.
pub proof fn law_disable_gvs_for_packages_change_is_noticed(f: FilesView, s: SettingsSnapshot, list: Vec<String>)
    requires
        list@.len() == s.disable_gvs_for_packages@.len() + 1,
        list@.drop_last() == s.disable_gvs_for_packages@,
    ensures
        settings_message(f, SettingsSnapshot { disable_gvs_for_packages: list, ..s }) != settings_message(f, s),
{
    let t = SettingsSnapshot { disable_gvs_for_packages: list, ..s };
    lemma_disable_gvs_for_packages_parts(s, t, list);
    lemma_shape_tells(f, t, s, 8);
}

/// Another system changes what the digest is taken of.
#[verifier::spinoff_prover]
#[verifier::rlimit(40)]
pub proof fn law_os_change_is_noticed(f: FilesView, s: SettingsSnapshot, word: String)
    requires
        word@ != s.os@,
    ensures
        settings_message(f, SettingsSnapshot { os: word, ..s }) != settings_message(f, s),
{
    let t = SettingsSnapshot { os: word, ..s };
    assert(tree_fields(t) == tree_fields(s));
    assert(shape_fields(t) == shape_fields(s));
    assert(value_fields(t) == value_fields(s));
    lemma_host_tells(f, t, s);
}

/// Another processor changes what the digest is taken of.
#[verifier::spinoff_prover]
#[verifier::rlimit(40)]
pub proof fn law_arch_change_is_noticed(f: FilesView, s: SettingsSnapshot, word: String)
    requires
        word@ != s.arch@,
    ensures
        settings_message(f, SettingsSnapshot { arch: word, ..s }) != settings_message(f, s),
{
    let t = SettingsSnapshot { arch: word, ..s };
    assert(tree_fields(t) == tree_fields(s));
    assert(shape_fields(t) == shape_fields(s));
    assert(value_fields(t) == value_fields(s));
    lemma_host_tells(f, t, s);
}

/// Another C library changes what the digest is taken of.
#[verifier::spinoff_prover]
#[verifier::rlimit(40)]
pub proof fn law_libc_change_is_noticed(f: FilesView, s: SettingsSnapshot, word: String)
    requires
        word@ != s.libc@,
    ensures
        settings_message(f, SettingsSnapshot { libc: word, ..s }) != settings_message(f, s),
{
    let t = SettingsSnapshot { libc: word, ..s };
    assert(tree_fields(t) == tree_fields(s));
    assert(shape_fields(t) == shape_fields(s));
    assert(value_fields(t) == value_fields(s));
    lemma_host_tells(f, t, s);
}

} // verus!
