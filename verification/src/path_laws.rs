//! What paths come to when they are read, joined, taken apart and tidied.
use crate::fs_path::{
    dot_part, is_absolute_text, kept, normalized, parsed, path_file_name, path_joined, path_parent, pieces, root_part,
    solid, up_part,
};
use crate::relative::{absolute, relative_text};
use vstd::prelude::*;

verus! {

/// The text is a single name: not empty, without a slash, and neither `.` nor `..`.
pub open spec fn is_name(s: Seq<char>) -> bool {
    s.len() > 0 && !s.contains('/') && s != seq!['.'] && s != seq!['.', '.']
}

proof fn lemma_pieces_of_name(s: Seq<char>)
    requires
        !s.contains('/'),
    ensures
        pieces(s) == seq![s],
    decreases s.len(),
{
    if s.len() > 0 {
        let t = s.drop_last();
        assert(s.contains(s.last()));
        assert(!t.contains('/')) by {
            if t.contains('/') {
                let i = choose|i: int| 0 <= i < t.len() && t[i] == '/';
                assert(s[i] == '/');
            }
        }
        lemma_pieces_of_name(t);
        assert(t.push(s.last()) =~= s);
        assert(pieces(t).drop_last().push(pieces(t).last().push(s.last())) =~= seq![s]);
    } else {
        assert(s =~= Seq::<char>::empty());
    }
}

proof fn lemma_kept_one(piece: Seq<char>)
    ensures
        kept(seq![piece]) == if solid(piece) {
            seq![piece]
        } else {
            Seq::empty()
        },
{
    let one = seq![piece];
    assert(one.drop_last() =~= Seq::<Seq<char>>::empty());
    assert(one.last() == piece);
    assert(kept(one.drop_last()) =~= Seq::<Seq<char>>::empty());
    assert(Seq::<Seq<char>>::empty().push(piece) =~= one);
}

/// A name is read as itself, and joined to a directory it is a name in it; what
/// lies above that is the directory again.
pub proof fn law_joined_name_lies_in_the_directory(base: Seq<Seq<char>>, name: Seq<char>)
    requires
        is_name(name),
        base.len() > 0,
    ensures
        parsed(name) == seq![name],
        path_joined(base, name) == base.push(name),
        path_parent(path_joined(base, name)) == Some(base),
        path_file_name(path_joined(base, name)) == Some(name),
{
    lemma_pieces_of_name(name);
    lemma_kept_one(name);
    assert(name.contains(name[0]));
    assert(base + seq![name] =~= base.push(name));
    assert(base.push(name).drop_last() =~= base);
    assert(root_part().contains('/')) by {
        assert(root_part()[0] == '/');
    }
}

/// An absolute text names its place wherever it is joined to, and starts at the
/// root; nothing joined to a directory is the directory.
pub proof fn law_absolute_text_stands_alone(base: Seq<Seq<char>>, s: Seq<char>)
    ensures
        s.len() > 0 && s[0] == '/' ==> path_joined(base, s) == parsed(s),
        s.len() > 0 && s[0] == '/' ==> parsed(s).len() > 0 && parsed(s)[0] == seq!['/'],
        s.len() == 0 ==> path_joined(base, s) == base,
{
    if s.len() == 0 {
        lemma_pieces_of_name(s);
        lemma_kept_one(s);
        assert(pieces(s)[0] == s);
        assert(base + Seq::<Seq<char>>::empty() =~= base);
        if base.len() == 0 {
            assert(base =~= Seq::<Seq<char>>::empty());
        }
    }
}

proof fn lemma_pieces_split(a: Seq<char>, b: Seq<char>)
    ensures
        pieces(b).len() > 0,
        pieces(a + seq!['/'] + b) == pieces(a) + pieces(b),
    decreases b.len(),
{
    let s = a + seq!['/'] + b;
    if b.len() == 0 {
        assert(s.drop_last() =~= a);
        assert(s.last() == '/');
        assert(b =~= Seq::<char>::empty());
        assert(pieces(a).push(Seq::empty()) =~= pieces(a) + pieces(b));
    } else {
        let c = b.drop_last();
        lemma_pieces_split(a, c);
        assert(s.drop_last() =~= a + seq!['/'] + c);
        assert(s.last() == b.last());
        if b.last() == '/' {
            assert((pieces(a) + pieces(c)).push(Seq::empty()) =~= pieces(a) + pieces(c).push(Seq::empty()));
        } else {
            let grown = pieces(c).last().push(b.last());
            assert((pieces(a) + pieces(c)).last() == pieces(c).last());
            assert((pieces(a) + pieces(c)).drop_last().push(grown) =~= pieces(a) + pieces(c).drop_last().push(grown));
        }
    }
}

proof fn lemma_kept_both(a: Seq<Seq<char>>, b: Seq<Seq<char>>)
    ensures
        kept(a + b) == kept(a) + kept(b),
    decreases b.len(),
{
    if b.len() == 0 {
        assert(a + b =~= a);
        assert(kept(a) + kept(b) =~= kept(a));
    } else {
        lemma_kept_both(a, b.drop_last());
        assert((a + b).drop_last() =~= a + b.drop_last());
        assert((a + b).last() == b.last());
        if solid(b.last()) {
            assert(kept(a + b) =~= kept(a) + kept(b));
        }
    }
}

/// Joining two texts with a slash between them is joining one and then the other;
/// so doubled slashes, slashes at the end and `.` in the middle make no difference.
pub proof fn law_joining_goes_step_by_step(base: Seq<Seq<char>>, a: Seq<char>, b: Seq<char>)
    requires
        base.len() > 0,
        a.len() > 0,
        b.len() == 0 || b[0] != '/',
    ensures
        path_joined(base, a + seq!['/'] + b) == path_joined(path_joined(base, a), b),
{
    let s = a + seq!['/'] + b;
    lemma_pieces_split(a, b);
    lemma_kept_both(pieces(a), pieces(b));
    assert(s[0] == a[0]);
    if is_absolute_text(a) {
        assert(seq![root_part()] + (kept(pieces(a)) + kept(pieces(b))) =~= seq![root_part()] + kept(pieces(a)) + kept(
            pieces(b),
        ));
    } else {
        assert(base + (kept(pieces(a)) + kept(pieces(b))) =~= base + kept(pieces(a)) + kept(pieces(b)));
    }
}

/// Tidying keeps a name where it is, drops `.`, and takes `..` back against the
/// name before it; at the root there is nowhere further up.
pub proof fn law_tidying_goes_by_the_last_component(parts: Seq<Seq<char>>, name: Seq<char>)
    ensures
        is_name(name) ==> normalized(parts.push(name)) == normalized(parts).push(name),
        normalized(parts.push(seq!['.'])) == normalized(parts),
        is_name(name) ==> normalized(parts.push(name).push(seq!['.', '.'])) == normalized(parts),
        normalized(seq![seq!['/']].push(seq!['.', '.'])) == normalized(seq![seq!['/']]),
        normalized(Seq::<Seq<char>>::empty().push(seq!['.', '.'])) == seq![seq!['.', '.']],
{
    let up = seq!['.', '.'];
    let dot = seq!['.'];
    let root = seq!['/'];
    assert(up.len() == 2 && dot.len() == 1 && root.len() == 1);
    assert(dot[0] == '.' && root[0] == '/' && up[0] == '.');
    assert(parts.push(dot).drop_last() =~= parts);
    assert(parts.push(name).drop_last() =~= parts);
    assert(root.contains('/'));
    if is_name(name) {
        let more = parts.push(name).push(up);
        assert(more.drop_last() =~= parts.push(name));
        assert(normalized(parts.push(name)) == normalized(parts).push(name));
        assert(normalized(parts).push(name).drop_last() =~= normalized(parts));
        assert(name != root);
        assert(name != up);
    }
    let top = seq![root];
    let none = Seq::<Seq<char>>::empty();
    assert(top.drop_last() =~= none);
    assert(top.last() == root);
    assert(normalized(none) =~= none);
    assert(root != up && root != dot);
    assert(normalized(top) == none.push(root));
    assert(top.push(up).drop_last() =~= top);
    assert(top.push(up).last() == up);
    assert(none.push(up).drop_last() =~= none);
    assert(none.push(up) =~= seq![up]);
}

/// No component of a tidied path is `.`, and `..` stands only in front.
pub proof fn law_tidied_path_has_no_dots(parts: Seq<Seq<char>>)
    ensures
        forall|i: int| 0 <= i < normalized(parts).len() ==> #[trigger] normalized(parts)[i] != dot_part(),
        forall|i: int, j: int|
            0 <= i < j < normalized(parts).len() && #[trigger] normalized(parts)[j] == up_part()
                ==> #[trigger] normalized(parts)[i] == up_part(),
    decreases parts.len(),
{
    if parts.len() > 0 {
        let head = normalized(parts.drop_last());
        let out = normalized(parts);
        law_tidied_path_has_no_dots(parts.drop_last());
        assert(dot_part().len() != up_part().len());
        assert forall|i: int| 0 <= i < out.len() implies #[trigger] out[i] != dot_part() by {
            if i < head.len() {
                assert(out[i] == head[i]);
            }
        }
        assert forall|i: int, j: int|
            0 <= i < j < out.len() && #[trigger] out[j] == up_part() implies #[trigger] out[i] == up_part() by {
            assert(out[i] == head[i]);
            if j < head.len() {
                assert(out[j] == head[j]);
            } else if i < head.len() - 1 {
                assert(head[head.len() - 1] == up_part());
            }
        }
    }
}

/// A path that has no `.` and no `..` is tidy.
pub proof fn law_tidy_path_stays(parts: Seq<Seq<char>>)
    requires
        forall|i: int| 0 <= i < parts.len() ==> #[trigger] parts[i] != dot_part() && parts[i] != up_part(),
    ensures
        normalized(parts) == parts,
    decreases parts.len(),
{
    if parts.len() > 0 {
        let front = parts.drop_last();
        assert forall|i: int| 0 <= i < front.len() implies #[trigger] front[i] != dot_part() && front[i]
            != up_part() by {
            assert(front[i] == parts[i]);
        }
        law_tidy_path_stays(front);
        assert(parts[parts.len() - 1] != dot_part());
        assert(front.push(parts.last()) =~= parts);
    } else {
        assert(normalized(parts) =~= parts);
    }
}

/// Neither a root nor the empty path lies in a directory. What ends in `.` or `..`
/// has no name.
pub proof fn law_some_paths_have_no_parent(parts: Seq<Seq<char>>)
    ensures
        parts.len() == 0 ==> path_parent(parts) is None && path_file_name(parts) is None,
        parts.len() > 0 && parts.last() == seq!['/'] ==> path_parent(parts) is None && path_file_name(parts) is None,
        parts.len() > 0 && (parts.last() == seq!['.'] || parts.last() == seq!['.', '.']) ==> path_file_name(
            parts,
        ) is None,
        parts.len() > 0 && parts.last() != seq!['/'] ==> path_parent(parts) is Some,
{
}

/// What is recorded of a path has no backslash. Seen from a relative directory an
/// absolute path is recorded whole, and so is a relative one from an absolute
/// directory.
pub proof fn law_recorded_path_has_forward_slashes(path: Seq<Seq<char>>, base: Seq<Seq<char>>)
    ensures
        !relative_text(path, base).contains('\\'),
        absolute(path) != absolute(base) ==> relative_text(path, base) == crate::text::with_replaced(
            crate::fs_path::text_of(path),
            '\\',
            '/',
        ),
{
}

} // verus!
