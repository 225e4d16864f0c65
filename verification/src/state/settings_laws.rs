//! Which changes the digest of the settings notices.
use crate::digest::content_or_empty;
use crate::state::settings::{
    filed, host_bytes, lemma_files_tell, lemma_middle, npmrc_bytes, patch_bytes, patches_listed, settings_message,
    value_fields, workspace_bytes, SettingsSnapshot,
};
use crate::state::settings_files::{changed_only, FilesView, SettingsContents, SettingsFile};
use crate::str_map::{lemma_entry, lemma_increasing_distinct, lemma_increasing_unique, StrMap};
use crate::text::before;
use vstd::prelude::*;
use vstd::utf8::encode_utf8;

verus! {

/// A file that differs in its bytes makes a list of files differ.
proof fn lemma_file_tells(
    head: Seq<u8>,
    label: Seq<u8>,
    a: Option<Vec<u8>>,
    b: Option<Vec<u8>>,
    tail: Seq<u8>,
)
    requires
        content_or_empty(a) != content_or_empty(b),
    ensures
        head + filed(label, a) + tail != head + filed(label, b) + tail,
{
    let front = head + label + seq![0x1fu8];
    let back = seq![0x1eu8] + tail;
    assert(head + filed(label, a) + tail =~= front + content_or_empty(a) + back);
    assert(head + filed(label, b) + tail =~= front + content_or_empty(b) + back);
    if head + filed(label, a) + tail == head + filed(label, b) + tail {
        lemma_middle(front, content_or_empty(a), content_or_empty(b), back);
    }
}

/// Files of the same bytes are listed the same.
proof fn lemma_filed_same(label: Seq<u8>, a: Option<Vec<u8>>, b: Option<Vec<u8>>)
    requires
        content_or_empty(a) == content_or_empty(b),
    ensures
        filed(label, a) == filed(label, b),
{
}

/// Maps with the same keys have them in the same order.
proof fn lemma_keys_same(a: StrMap<Option<Vec<u8>>>, b: StrMap<Option<Vec<u8>>>)
    requires
        a.wf(),
        b.wf(),
        a@.dom() == b@.dom(),
    ensures
        a.keys() == b.keys(),
{
    assert forall|k: Seq<char>| a.keys().contains(k) <==> b.keys().contains(k) by {
        assert(a@.contains_key(k) == a.keys().contains(k));
        assert(b@.contains_key(k) == b.keys().contains(k));
        assert(a@.dom().contains(k) == b@.dom().contains(k));
    }
    lemma_increasing_unique(a.keys(), b.keys());
}

/// The bytes of a patch file.
spec fn patch(p: StrMap<Option<Vec<u8>>>, i: int) -> Seq<u8> {
    filed(encode_utf8(p.keys()[i]), p.values()[i])
}

/// Where one patch file differs, the lists differ from there on.
proof fn lemma_edited_patch_tells(
    a: StrMap<Option<Vec<u8>>>,
    b: StrMap<Option<Vec<u8>>>,
    j: int,
    n: int,
)
    requires
        0 <= j < n <= a.keys().len(),
        a.keys().len() == b.keys().len(),
        forall|i: int| 0 <= i < n && i != j ==> #[trigger] patch(a, i) == patch(b, i),
        a.keys()[j] == b.keys()[j],
        content_or_empty(a.values()[j]) != content_or_empty(b.values()[j]),
    ensures
        forall|head: Seq<u8>, tail: Seq<u8>| #[trigger]
            (head + patches_listed(a, n) + tail) != head + patches_listed(b, n) + tail,
    decreases n,
{
    let label = encode_utf8(a.keys()[j]);
    assert forall|head: Seq<u8>, tail: Seq<u8>| #[trigger]
        (head + patches_listed(a, n) + tail) != head + patches_listed(b, n) + tail by {
        if n - 1 == j {
            lemma_same_patches(a, b, j);
            let front = head + patches_listed(a, j);
            lemma_file_tells(front, label, a.values()[j], b.values()[j], tail);
            assert(head + patches_listed(a, n) + tail =~= front + filed(label, a.values()[j]) + tail);
            assert(head + patches_listed(b, n) + tail =~= front + filed(label, b.values()[j]) + tail);
        } else {
            lemma_edited_patch_tells(a, b, j, n - 1);
            assert(patch(a, n - 1) == patch(b, n - 1));
            let back = patch(a, n - 1) + tail;
            assert(head + patches_listed(a, n) + tail =~= head + patches_listed(a, n - 1) + back);
            assert(head + patches_listed(b, n) + tail =~= head + patches_listed(b, n - 1) + back);
        }
    }
}

/// The same patch files are listed the same.
proof fn lemma_same_patches(a: StrMap<Option<Vec<u8>>>, b: StrMap<Option<Vec<u8>>>, n: int)
    requires
        forall|i: int| 0 <= i < n ==> #[trigger] patch(a, i) == patch(b, i),
    ensures
        patches_listed(a, n) == patches_listed(b, n),
    decreases n,
{
    if n > 0 {
        lemma_same_patches(a, b, n - 1);
        assert(patch(a, n - 1) == patch(b, n - 1));
    }
}

/// One patch file more makes the list longer.
proof fn lemma_added_patch_is_longer(a: StrMap<Option<Vec<u8>>>, b: StrMap<Option<Vec<u8>>>, j: int, n: int)
    requires
        0 <= j <= n,
        forall|i: int| 0 <= i < j ==> #[trigger] patch(b, i) == patch(a, i),
        forall|i: int| j <= i < n ==> patch(b, i + 1) == #[trigger] patch(a, i),
    ensures
        patches_listed(b, n + 1).len() == patches_listed(a, n).len() + patch(b, j).len(),
    decreases n,
{
    if n == j {
        lemma_same_patches(b, a, j);
    } else {
        lemma_added_patch_is_longer(a, b, j, n - 1);
        assert(patch(b, n) == patch(a, n - 1));
    }
}

/// What is listed of a patch file that both maps have.
proof fn lemma_patch_of(
    a: StrMap<Option<Vec<u8>>>,
    b: StrMap<Option<Vec<u8>>>,
    i: int,
    k: int,
)
    requires
        a.wf(),
        b.wf(),
        0 <= i < a.keys().len(),
        0 <= k < b.keys().len(),
        a.keys()[i] == b.keys()[k],
        content_or_empty(a@[a.keys()[i]]) == content_or_empty(b@[b.keys()[k]]),
    ensures
        patch(a, i) == patch(b, k),
{
    lemma_entry(a, i);
    lemma_entry(b, k);
    lemma_filed_same(encode_utf8(a.keys()[i]), a.values()[i], b.values()[k]);
}

/// A map with one key more has it at some place among the others.
proof fn lemma_added_key(a: StrMap<Option<Vec<u8>>>, b: StrMap<Option<Vec<u8>>>, name: Seq<char>) -> (j: int)
    requires
        a.wf(),
        b.wf(),
        !a@.contains_key(name),
        b@.dom() == a@.dom().insert(name),
    ensures
        0 <= j < b.keys().len(),
        b.keys()[j] == name,
        b.keys().remove(j) == a.keys(),
{
    let keys = b.keys();
    lemma_increasing_distinct(keys);
    assert(b@.contains_key(name));
    assert(keys.contains(name));
    let j = choose|j: int| 0 <= j < keys.len() && keys[j] == name;
    let rest = keys.remove(j);
    assert forall|x: int, y: int| 0 <= x < y < rest.len() implies before(#[trigger] rest[x], #[trigger] rest[y]) by {
        let u = if x < j {
            x
        } else {
            x + 1
        };
        let v = if y < j {
            y
        } else {
            y + 1
        };
        assert(rest[x] == keys[u] && rest[y] == keys[v]);
    }
    assert forall|k: Seq<char>| rest.contains(k) <==> a.keys().contains(k) by {
        assert(a@.contains_key(k) == a.keys().contains(k));
        assert(b@.contains_key(k) == keys.contains(k));
        assert(b@.dom().contains(k) == a@.dom().insert(name).contains(k));
        if rest.contains(k) {
            let x = choose|x: int| 0 <= x < rest.len() && rest[x] == k;
            let u = if x < j {
                x
            } else {
                x + 1
            };
            assert(keys[u] == k);
            assert(u != j);
        }
        if keys.contains(k) && k != name {
            let u = choose|u: int| 0 <= u < keys.len() && keys[u] == k;
            let x = if u < j {
                u
            } else {
                u - 1
            };
            assert(rest[x] == k);
        }
    }
    lemma_increasing_unique(rest, a.keys());
    j
}

/// A patch file that was added makes the list longer.
proof fn lemma_added_patch(a: StrMap<Option<Vec<u8>>>, b: StrMap<Option<Vec<u8>>>, name: Seq<char>)
    requires
        a.wf(),
        b.wf(),
        !a@.contains_key(name),
        b@.dom() == a@.dom().insert(name),
        forall|k: Seq<char>| #[trigger] a@.contains_key(k) ==> content_or_empty(a@[k]) == content_or_empty(b@[k]),
    ensures
        patches_listed(b, b.keys().len() as int).len() > patches_listed(a, a.keys().len() as int).len(),
{
    let j = lemma_added_key(a, b, name);
    let n = a.keys().len() as int;
    let rest = b.keys().remove(j);
    assert(rest.len() == b.keys().len() - 1);
    assert forall|i: int| 0 <= i < j implies #[trigger] patch(b, i) == patch(a, i) by {
        assert(rest[i] == b.keys()[i]);
        lemma_entry(a, i);
        lemma_patch_of(b, a, i, i);
    }
    assert forall|i: int| j <= i < n implies patch(b, i + 1) == #[trigger] patch(a, i) by {
        assert(rest[i] == b.keys()[i + 1]);
        lemma_entry(a, i);
        lemma_patch_of(b, a, i + 1, i);
    }
    lemma_added_patch_is_longer(a, b, j, n);
    assert(patch(b, j).len() > 0);
}

/// A patch file that was changed, made or removed makes the list differ,
/// whatever stands before it.
proof fn lemma_patch_change(head: Seq<u8>, a: SettingsContents, b: SettingsContents, name: Seq<char>)
    requires
        a.patches.wf(),
        b.patches.wf(),
        a@.patches != b@.patches,
        a@.patches.remove(name) == b@.patches.remove(name),
    ensures
        head + patches_listed(a.patches, a.patches.keys().len() as int) != head + patches_listed(
            b.patches,
            b.patches.keys().len() as int,
        ),
{
    let (p, q) = (a.patches, b.patches);
    let (va, vb) = (a@.patches, b@.patches);
    let (x, y) = (patches_listed(p, p.keys().len() as int), patches_listed(q, q.keys().len() as int));
    assert((head + x).len() == head.len() + x.len());
    assert((head + y).len() == head.len() + y.len());
    assert forall|k: Seq<char>| k != name implies p@.contains_key(k) == q@.contains_key(k) && (p@.contains_key(k)
        ==> content_or_empty(p@[k]) == content_or_empty(q@[k])) by {
        assert(va.remove(name).contains_key(k) == vb.remove(name).contains_key(k));
        if p@.contains_key(k) {
            assert(va.remove(name)[k] == vb.remove(name)[k]);
            assert(va[k] == content_or_empty(p@[k]));
            assert(vb[k] == content_or_empty(q@[k]));
        }
    }
    if p@.contains_key(name) && q@.contains_key(name) {
        assert(p@.dom() =~= q@.dom());
        lemma_keys_same(p, q);
        assert(p.keys().contains(name));
        let j = choose|j: int| 0 <= j < p.keys().len() && p.keys()[j] == name;
        lemma_entry(p, j);
        lemma_entry(q, j);
        lemma_increasing_distinct(p.keys());
        if content_or_empty(p@[name]) == content_or_empty(q@[name]) {
            assert(va =~= vb);
        }
        let n = p.keys().len() as int;
        assert forall|i: int| 0 <= i < n && i != j implies #[trigger] patch(p, i) == patch(q, i) by {
            assert(p.keys()[i] != p.keys()[j]);
            lemma_entry(p, i);
            lemma_patch_of(p, q, i, i);
        }
        lemma_edited_patch_tells(p, q, j, n);
        let e = Seq::<u8>::empty();
        assert(head + patches_listed(p, n) + e != head + patches_listed(q, n) + e);
        assert(head + patches_listed(p, n) + e =~= head + patches_listed(p, n));
        assert(head + patches_listed(q, n) + e =~= head + patches_listed(q, n));
    } else if q@.contains_key(name) {
        assert(q@.dom() =~= p@.dom().insert(name));
        lemma_added_patch(p, q, name);
    } else if p@.contains_key(name) {
        assert(p@.dom() =~= q@.dom().insert(name));
        lemma_added_patch(q, p, name);
    } else {
        assert(va =~= vb);
    }
}

/// The same patch files are listed the same, however they are held.
proof fn lemma_patches_same(a: SettingsContents, b: SettingsContents)
    requires
        a.patches.wf(),
        b.patches.wf(),
        a@.patches == b@.patches,
    ensures
        patches_listed(a.patches, a.patches.keys().len() as int) == patches_listed(
            b.patches,
            b.patches.keys().len() as int,
        ),
{
    let (p, q) = (a.patches, b.patches);
    assert(p@.dom() =~= q@.dom()) by {
        assert forall|k: Seq<char>| #[trigger] p@.dom().contains(k) == q@.dom().contains(k) by {
            assert(a@.patches.contains_key(k) == p@.contains_key(k));
            assert(b@.patches.contains_key(k) == q@.contains_key(k));
            assert(a@.patches.contains_key(k) == b@.patches.contains_key(k));
        }
    }
    lemma_keys_same(p, q);
    assert forall|i: int| 0 <= i < p.keys().len() implies #[trigger] patch(p, i) == patch(q, i) by {
        lemma_entry(p, i);
        let k = p.keys()[i];
        assert(a@.patches[k] == content_or_empty(p@[k]));
        assert(b@.patches[k] == content_or_empty(q@[k]));
        lemma_patch_of(p, q, i, i);
    }
    lemma_same_patches(p, q, p.keys().len() as int);
}

/// Changing, making or removing a workspace file, a registry configuration, the
/// list of patches or a patch file changes what the digest is taken of: a
/// registry or a token that was swapped is noticed.
pub proof fn law_file_change_is_noticed(f: FilesView, s: SettingsSnapshot, c: SettingsContents, file: SettingsFile)
    requires
        s.contents.patches.wf(),
        c.patches.wf(),
        changed_only(f, s.contents@, c@, file),
    ensures
        settings_message(f, SettingsSnapshot { contents: c, ..s }) != settings_message(f, s),
{
    let t = SettingsSnapshot { contents: c, ..s };
    let o = s.contents;
    let e = Seq::<u8>::empty();
    assert(value_fields(t) == value_fields(s));
    assert(host_bytes(t) == host_bytes(s));
    if !(file is Patch) {
        lemma_patches_same(o, c);
    }
    let pnpm = encode_utf8("pnpm-workspace.yaml"@);
    let project = encode_utf8(crate::fs_path::text_of(f.project_npmrc));
    let own = match f.own_workspace {
        Some(w) => encode_utf8(w.0),
        None => e,
    };
    let user = match f.user_npmrc {
        Some(p) => encode_utf8(crate::fs_path::text_of(p)),
        None => e,
    };
    let own_filed = match f.own_workspace {
        Some(_) => filed(own, o.own_workspace),
        None => e,
    };
    let user_filed = match f.user_npmrc {
        Some(_) => filed(user, o.user_npmrc),
        None => e,
    };
    match file {
        SettingsFile::PnpmWorkspace => {
            lemma_file_tells(e, pnpm, o.pnpm_workspace, c.pnpm_workspace, own_filed);
            assert(e + filed(pnpm, o.pnpm_workspace) + own_filed =~= workspace_bytes(f, o));
            assert(e + filed(pnpm, c.pnpm_workspace) + own_filed =~= workspace_bytes(f, c));
        },
        SettingsFile::OwnWorkspace => {
            lemma_file_tells(filed(pnpm, o.pnpm_workspace), own, o.own_workspace, c.own_workspace, e);
            assert(filed(pnpm, o.pnpm_workspace) + filed(own, o.own_workspace) + e =~= workspace_bytes(f, o));
            assert(filed(pnpm, o.pnpm_workspace) + filed(own, c.own_workspace) + e =~= workspace_bytes(f, c));
        },
        SettingsFile::ProjectNpmrc => {
            lemma_file_tells(e, project, o.project_npmrc, c.project_npmrc, user_filed);
            assert(e + filed(project, o.project_npmrc) + user_filed =~= npmrc_bytes(f, o));
            assert(e + filed(project, c.project_npmrc) + user_filed =~= npmrc_bytes(f, c));
        },
        SettingsFile::UserNpmrc => {
            lemma_file_tells(filed(project, o.project_npmrc), user, o.user_npmrc, c.user_npmrc, e);
            assert(filed(project, o.project_npmrc) + filed(user, o.user_npmrc) + e =~= npmrc_bytes(f, o));
            assert(filed(project, o.project_npmrc) + filed(user, c.user_npmrc) + e =~= npmrc_bytes(f, c));
        },
        SettingsFile::PatchesSidecar => {
            lemma_sidecar_change(f, o, c);
        },
        SettingsFile::Patch(name) => {
            let head = match o.patches_sidecar {
                None => e,
                Some(_) => filed(encode_utf8(f.patches_sidecar.0), o.patches_sidecar),
            };
            lemma_patch_change(head, o, c, name);
            assert(patch_bytes(f, o) == head + patches_listed(o.patches, o.patches.keys().len() as int));
            assert(patch_bytes(f, c) == head + patches_listed(c.patches, c.patches.keys().len() as int));
        },
    }
    lemma_files_tell(f, t, s);
}

/// The list of patches, changed, made or removed, makes the patches differ.
proof fn lemma_sidecar_change(f: FilesView, a: SettingsContents, b: SettingsContents)
    requires
        a@.patches_sidecar != b@.patches_sidecar,
        patches_listed(a.patches, a.patches.keys().len() as int) == patches_listed(
            b.patches,
            b.patches.keys().len() as int,
        ),
    ensures
        patch_bytes(f, a) != patch_bytes(f, b),
{
    let label = encode_utf8(f.patches_sidecar.0);
    let e = Seq::<u8>::empty();
    let tail = patches_listed(a.patches, a.patches.keys().len() as int);
    if a.patches_sidecar is Some && b.patches_sidecar is Some {
        lemma_file_tells(e, label, a.patches_sidecar, b.patches_sidecar, tail);
        assert(e + filed(label, a.patches_sidecar) + tail =~= patch_bytes(f, a));
        assert(e + filed(label, b.patches_sidecar) + tail =~= patch_bytes(f, b));
    } else {
        assert(patch_bytes(f, a).len() != patch_bytes(f, b).len());
    }
}

} // verus!
