//! Paths relative to a directory.
use crate::fs_path::{
    dot_part, is_absolute_text, law_text_round_trip, lemma_char_in_part, parsed, part_wf, path_joined, path_wf,
    root_part, solid, text_of, up_part, FsPath,
};
use crate::text::{opt_text, replace_char, with_replaced};
use vstd::prelude::*;

verus! {

/// How many components two paths have in common at the start.
pub open spec fn shared_len(a: Seq<Seq<char>>, b: Seq<Seq<char>>) -> nat
    decreases a.len(),
{
    if a.len() == 0 || b.len() == 0 || a[0] != b[0] {
        0
    } else {
        1 + shared_len(a.drop_first(), b.drop_first())
    }
}

/// The way to `path` from `base`: up out of what only `base` has, and down
/// into what only `path` has.
pub open spec fn way(path: Seq<Seq<char>>, base: Seq<Seq<char>>) -> Seq<Seq<char>> {
    let n = shared_len(path, base) as int;
    Seq::new((base.len() - n) as nat, |i: int| up_part()) + path.skip(n)
}

/// No component stands for the directory itself or the one above.
pub open spec fn no_dots(parts: Seq<Seq<char>>) -> bool {
    !parts.contains(dot_part()) && !parts.contains(up_part())
}

/// Up as many times.
pub open spec fn ups(n: nat) -> Seq<Seq<char>> {
    Seq::new(n, |i: int| up_part())
}

/// The components that lead from `base` to `path`, both absolute or both relative.
///
/// What both start with is left out. A `.` in front of `base` lets one component
/// of `path` through; a `..` in `base` cannot be undone while `path` goes on.
/// `started` says that something was let through.
pub open spec fn walk(path: Seq<Seq<char>>, base: Seq<Seq<char>>, started: bool) -> Option<Seq<Seq<char>>>
    decreases base.len(),
{
    if base.len() == 0 {
        Some(path)
    } else if path.len() == 0 {
        Some(ups(base.len()))
    } else if !started && path[0] == base[0] {
        walk(path.drop_first(), base.drop_first(), false)
    } else if base[0] == dot_part() {
        match walk(path.drop_first(), base.drop_first(), true) {
            Some(rest) => Some(seq![path[0]] + rest),
            None => None,
        }
    } else if base[0] == up_part() {
        None
    } else {
        Some(ups(base.len()) + path)
    }
}

/// `pathdiff::diff_paths`: the path that leads from `base` to `path`.
///
/// An absolute path seen from a relative one is itself; a relative path cannot
/// be seen from an absolute one. Otherwise the components of `walk` come out,
/// with a slash between them, and nothing where there is no walk. Texts are read
/// as Unix paths.
#[verifier::external_body]
fn diff_paths(path: &str, base: &str) -> (r: Option<String>)
    ensures
        opt_text(r) == if is_absolute_text(path@) == is_absolute_text(base@) {
            match walk(parsed(path@), parsed(base@), false) {
                Some(parts) => Some(text_of(parts)),
                None => None,
            }
        } else if is_absolute_text(path@) {
            Some(path@)
        } else {
            None
        },
{
    pathdiff::diff_paths(path, base).map(|p| p.to_string_lossy().into_owned())
}

/// Where nothing in `base` has to be resolved, the walk is the way.
proof fn lemma_walk_is_the_way(path: Seq<Seq<char>>, base: Seq<Seq<char>>)
    requires
        no_dots(base),
    ensures
        walk(path, base, false) == Some(way(path, base)),
    decreases base.len(),
{
    if base.len() == 0 {
        assert(way(path, base) =~= path);
    } else {
        assert(base.contains(base[0]));
        if path.len() == 0 {
            assert(way(path, base) =~= ups(base.len()));
        } else if path[0] == base[0] {
            let (a, b) = (path.drop_first(), base.drop_first());
            assert(no_dots(b)) by {
                assert forall|i: int| 0 <= i < b.len() implies b[i] != dot_part() && b[i] != up_part() by {
                    assert(base.contains(base[i + 1]));
                }
            }
            lemma_walk_is_the_way(a, b);
            lemma_shared_bound(a, b);
            assert(way(path, base) =~= way(a, b));
        } else {
            assert(way(path, base) =~= ups(base.len()) + path);
        }
    }
}

/// The way from one path to another is a path.
proof fn lemma_way_wf(path: Seq<Seq<char>>, base: Seq<Seq<char>>)
    requires
        path_wf(path),
        path_wf(base),
        absolute(path) == absolute(base),
        !path.contains(dot_part()),
    ensures
        path_wf(way(path, base)),
        parsed(text_of(way(path, base))) == way(path, base),
{
    let w = way(path, base);
    let n = shared_len(path, base) as int;
    lemma_shared_bound(path, base);
    let ups = base.len() - n;
    assert(solid(up_part()) && !up_part().contains('/')) by {
        assert(up_part().len() != dot_part().len());
    }
    assert forall|i: int| 0 <= i < w.len() implies part_wf(#[trigger] w[i], i) by {
        if i < ups {
            assert(w[i] == up_part());
        } else {
            let j = i - ups + n;
            assert(w[i] == path[j]);
            assert(part_wf(path[j], j));
            assert(path.contains(path[j]));
            if path[j] == root_part() {
                assert(root_part()[0] == '/');
                assert(root_part().contains('/'));
                assert(j == 0 && absolute(path));
            }
        }
    }
    law_text_round_trip(w);
}

/// What is shared is part of both.
proof fn lemma_shared_bound(a: Seq<Seq<char>>, b: Seq<Seq<char>>)
    ensures
        shared_len(a, b) <= a.len(),
        shared_len(a, b) <= b.len(),
        absolute(a) && absolute(b) ==> shared_len(a, b) > 0,
    decreases a.len(),
{
    if !(a.len() == 0 || b.len() == 0 || a[0] != b[0]) {
        lemma_shared_bound(a.drop_first(), b.drop_first());
    }
}

/// The text of the path that leads from `base` to `path`.
pub open spec fn difference(path: Seq<Seq<char>>, base: Seq<Seq<char>>) -> Option<Seq<char>> {
    if absolute(path) == absolute(base) {
        match walk(path, base, false) {
            Some(parts) => Some(text_of(parts)),
            None => None,
        }
    } else if absolute(path) {
        Some(text_of(path))
    } else {
        None
    }
}

/// The text of the path that leads from `base` to `path`, where there is one.
fn difference_text(path: &FsPath, base: &FsPath) -> (r: Option<String>)
    ensures
        opt_text(r) == difference(path@, base@),
{
    let path_text = path.to_text();
    let base_text = base.to_text();
    proof {
        law_text_round_trip(path@);
        law_text_round_trip(base@);
        lemma_absolute_text(path@);
        lemma_absolute_text(base@);
    }
    diff_paths(path_text.as_str(), base_text.as_str())
}

/// The path that leads from `base` to `path`.
pub open spec fn relative_to(path: Seq<Seq<char>>, base: Seq<Seq<char>>) -> Option<Seq<Seq<char>>> {
    match difference(path, base) {
        Some(t) => Some(parsed(t)),
        None => None,
    }
}

/// The path that leads from `base` to `path`, where there is one.
pub fn relative_path(path: &FsPath, base: &FsPath) -> (r: Option<FsPath>)
    ensures
        match r {
            Some(p) => relative_to(path@, base@) == Some(p@) && path_wf(p@),
            None => relative_to(path@, base@) is None,
        },
{
    match difference_text(path, base) {
        Some(t) => Some(FsPath::parse(t.as_str())),
        None => None,
    }
}

/// The path that leads from one path to another is the way between them, where
/// neither has components that have to be resolved.
pub proof fn law_relative_path_is_the_way(path: Seq<Seq<char>>, base: Seq<Seq<char>>)
    requires
        path_wf(path),
        path_wf(base),
        absolute(path) == absolute(base),
        no_dots(base),
        !path.contains(dot_part()),
    ensures
        relative_to(path, base) == Some(way(path, base)),
{
    lemma_walk_is_the_way(path, base);
    lemma_way_wf(path, base);
}

/// The path starts at the root.
pub open spec fn absolute(parts: Seq<Seq<char>>) -> bool {
    parts.len() > 0 && parts[0] == root_part()
}

/// The text of a path starts with a slash exactly when the path starts at the root.
proof fn lemma_absolute_text(parts: Seq<Seq<char>>)
    requires
        path_wf(parts),
    ensures
        is_absolute_text(text_of(parts)) == absolute(parts),
{
    law_text_round_trip(parts);
    let s = text_of(parts);
    if is_absolute_text(s) {
        assert(parsed(s)[0] == root_part());
    } else {
        if absolute(parts) {
            assert(s[0] == root_part()[0]);
        }
    }
}

/// A path as it is recorded: relative to `base` where it can be, with forward slashes.
pub open spec fn relative_text(path: Seq<Seq<char>>, base: Seq<Seq<char>>) -> Seq<char> {
    with_replaced(
        match difference(path, base) {
            Some(t) => t,
            None => text_of(path),
        },
        '\\',
        '/',
    )
}

/// The path is inside an absolute directory, with nothing in it that has to be
/// resolved or rewritten.
pub open spec fn plainly_under(path: Seq<Seq<char>>, base: Seq<Seq<char>>) -> bool {
    &&& absolute(base)
    &&& base.is_prefix_of(path)
    &&& no_dots(path)
    &&& forall|i: int| 0 <= i < path.len() ==> !(#[trigger] path[i]).contains('\\')
}

/// A prefix is shared whole.
proof fn lemma_shared_prefix(path: Seq<Seq<char>>, base: Seq<Seq<char>>)
    requires
        base.is_prefix_of(path),
    ensures
        shared_len(path, base) == base.len(),
    decreases base.len(),
{
    if base.len() > 0 {
        assert(path.take(base.len() as int)[0] == base[0]);
        assert(base.drop_first() =~= path.drop_first().take(base.len() - 1));
        lemma_shared_prefix(path.drop_first(), base.drop_first());
    }
}

/// A path inside a directory is found again from what is recorded of it.
pub proof fn law_recorded_path_is_found_again(path: Seq<Seq<char>>, base: Seq<Seq<char>>)
    requires
        path_wf(path),
        path_wf(base),
        plainly_under(path, base),
    ensures
        path_joined(base, relative_text(path, base)) == path,
{
    let t = text_of(way(path, base));
    let n = base.len() as int;
    let rest = path.skip(n);
    assert(base[0] == path.take(n)[0]);
    assert(no_dots(base)) by {
        assert forall|i: int| 0 <= i < base.len() implies base[i] != dot_part() && base[i] != up_part() by {
            assert(base[i] == path.take(n)[i]);
            assert(path.contains(path[i]));
        }
    }
    lemma_walk_is_the_way(path, base);
    lemma_way_wf(path, base);
    lemma_shared_prefix(path, base);
    assert(way(path, base) =~= rest);
    if t.contains('\\') {
        lemma_char_in_part(t, '\\');
        let i = choose|i: int| 0 <= i < parsed(t).len() && (#[trigger] parsed(t)[i]).contains('\\');
        assert(rest[i] == path[n + i]);
    }
    assert(with_replaced(t, '\\', '/') =~= t) by {
        assert forall|i: int| 0 <= i < t.len() implies t[i] != '\\' by {
            if t[i] == '\\' {
                assert(t.contains(t[i]));
            }
        }
    }
    if rest.len() > 0 {
        assert(rest[0] == path[n]);
        assert(path.contains(path[n]));
        assert(crate::fs_path::part_wf(path[n], n));
        assert(root_part().contains('/')) by {
            assert(root_part()[0] == '/');
        }
    }
    assert(base + rest =~= path) by {
        assert(path.take(n) =~= base);
    }
}

/// A path as it is recorded: relative to `base` where it can be, the path
/// itself otherwise, with forward slashes.
pub fn relative_path_or_original(path: &FsPath, base: &FsPath) -> (r: String)
    ensures
        r@ == relative_text(path@, base@),
{
    let text = match difference_text(path, base) {
        Some(t) => t,
        None => path.to_text(),
    };
    replace_char(text.as_str(), '\\', '/')
}

} // verus!
