//! File paths as sequences of components.
//!
//! A path is the list of its components. An absolute path starts with the
//! component `/`. A relative path may start with the component `.`. All other
//! components are names; `..` is a name like any other until a path is
//! normalized. Two paths are the same when their components are.
use crate::text::{chars_of, copy_texts, join, joined_text, same_text, texts};
use vstd::prelude::*;

verus! {

/// The component that stands for the root directory.
pub open spec fn root_part() -> Seq<char> {
    seq!['/']
}

/// The component that stands for the directory itself.
pub open spec fn dot_part() -> Seq<char> {
    seq!['.']
}

/// The component that stands for the directory above.
pub open spec fn up_part() -> Seq<char> {
    seq!['.', '.']
}

/// The texts between the slashes of `s`.
pub open spec fn pieces(s: Seq<char>) -> Seq<Seq<char>>
    decreases s.len(),
{
    if s.len() == 0 {
        seq![Seq::empty()]
    } else {
        let head = pieces(s.drop_last());
        if s.last() == '/' {
            head.push(Seq::empty())
        } else {
            head.drop_last().push(head.last().push(s.last()))
        }
    }
}

/// Neither empty nor the directory itself.
pub open spec fn solid(piece: Seq<char>) -> bool {
    piece.len() > 0 && piece != dot_part()
}

/// The solid pieces of a list.
pub open spec fn kept(list: Seq<Seq<char>>) -> Seq<Seq<char>>
    decreases list.len(),
{
    if list.len() == 0 {
        Seq::empty()
    } else if solid(list.last()) {
        kept(list.drop_last()).push(list.last())
    } else {
        kept(list.drop_last())
    }
}

/// Whether `s` is the text of an absolute path.
pub open spec fn is_absolute_text(s: Seq<char>) -> bool {
    s.len() > 0 && s[0] == '/'
}

/// The components of the path that `s` writes.
pub open spec fn parsed(s: Seq<char>) -> Seq<Seq<char>> {
    if is_absolute_text(s) {
        seq![root_part()] + kept(pieces(s))
    } else if pieces(s)[0] == dot_part() {
        seq![dot_part()] + kept(pieces(s))
    } else {
        kept(pieces(s))
    }
}

/// The text of a path.
pub open spec fn text_of(parts: Seq<Seq<char>>) -> Seq<char> {
    if parts.len() > 0 && parts[0] == root_part() {
        root_part() + joined_text(parts.skip(1), root_part())
    } else {
        joined_text(parts, root_part())
    }
}

/// The path that `s` writes, seen from `base`.
pub open spec fn path_joined(base: Seq<Seq<char>>, s: Seq<char>) -> Seq<Seq<char>> {
    if is_absolute_text(s) || base.len() == 0 {
        parsed(s)
    } else {
        base + kept(pieces(s))
    }
}

/// The directory above; a root and the empty path have none.
pub open spec fn path_parent(parts: Seq<Seq<char>>) -> Option<Seq<Seq<char>>> {
    if parts.len() == 0 || parts.last() == root_part() {
        None
    } else {
        Some(parts.drop_last())
    }
}

/// The name of the last component.
pub open spec fn path_file_name(parts: Seq<Seq<char>>) -> Option<Seq<char>> {
    if parts.len() == 0 || parts.last() == root_part() || parts.last() == dot_part() || parts.last()
        == up_part() {
        None
    } else {
        Some(parts.last())
    }
}

/// The path without `.`, and with each `..` taken against the name before it.
pub open spec fn normalized(parts: Seq<Seq<char>>) -> Seq<Seq<char>>
    decreases parts.len(),
{
    if parts.len() == 0 {
        Seq::empty()
    } else {
        let head = normalized(parts.drop_last());
        let part = parts.last();
        if part == dot_part() {
            head
        } else if part == up_part() {
            if head.len() == 0 || head.last() == up_part() {
                head.push(part)
            } else if head.last() == root_part() {
                head
            } else {
                head.drop_last()
            }
        } else {
            head.push(part)
        }
    }
}

/// Components that some text writes: names without slashes, the root or `.` only in front.
pub open spec fn path_wf(parts: Seq<Seq<char>>) -> bool {
    forall|i: int| 0 <= i < parts.len() ==> part_wf(#[trigger] parts[i], i)
}

/// A file path, held by its components.
///
/// Paths are Unix paths of Unicode text. What separates the components is not
/// kept: a doubled slash, a slash at the end, a `.` that is not in front.
#[derive(Debug, PartialEq, Eq, PartialOrd, Ord)]
pub struct FsPath {
    parts: Vec<String>,
}

impl View for FsPath {
    type V = Seq<Seq<char>>;

    closed spec fn view(&self) -> Seq<Seq<char>> {
        texts(self.parts@)
    }
}

impl FsPath {
    #[verifier::type_invariant]
    spec fn holds(self) -> bool {
        path_wf(texts(self.parts@))
    }
}

/// A part that may stand at an index of a path.
pub open spec fn part_wf(part: Seq<char>, i: int) -> bool {
    (solid(part) && !part.contains('/')) || (i == 0 && (part == root_part() || part == dot_part()))
}

/// Normalizing keeps paths well-formed.
pub proof fn lemma_normalized_wf(parts: Seq<Seq<char>>)
    requires
        path_wf(parts),
    ensures
        path_wf(normalized(parts)),
        parts.len() == 0 ==> normalized(parts).len() == 0,
    decreases parts.len(),
{
    let out = normalized(parts);
    if parts.len() > 0 {
        let front = parts.drop_last();
        assert forall|i: int| 0 <= i < front.len() implies part_wf(#[trigger] front[i], i) by {
            assert(front[i] == parts[i]);
        }
        lemma_normalized_wf(front);
        let head = normalized(front);
        assert(part_wf(parts[parts.len() - 1], parts.len() - 1));
        assert forall|i: int| 0 <= i < out.len() implies part_wf(#[trigger] out[i], i) by {
            if i < head.len() {
                assert(out[i] == head[i]);
                assert(part_wf(head[i], i));
            } else {
                assert(out[i] == parts.last());
            }
        }
    }
}

/// A list of pieces is never empty.
proof fn lemma_pieces_nonempty(s: Seq<char>)
    ensures
        pieces(s).len() > 0,
    decreases s.len(),
{
    if s.len() > 0 {
        lemma_pieces_nonempty(s.drop_last());
    }
}

/// No piece holds a slash.
proof fn lemma_pieces_have_no_slash(s: Seq<char>)
    ensures
        forall|i: int| 0 <= i < pieces(s).len() ==> !(#[trigger] pieces(s)[i]).contains('/'),
    decreases s.len(),
{
    if s.len() > 0 {
        lemma_pieces_nonempty(s.drop_last());
        lemma_pieces_have_no_slash(s.drop_last());
        let head = pieces(s.drop_last());
        assert forall|i: int| 0 <= i < pieces(s).len() implies !(#[trigger] pieces(s)[i]).contains('/') by {
            if s.last() != '/' && i == pieces(s).len() - 1 {
                let grown = head.last().push(s.last());
                assert(!head[head.len() - 1].contains('/'));
                assert(pieces(s)[i] == grown);
                if grown.contains('/') {
                    let j = choose|j: int| 0 <= j < grown.len() && grown[j] == '/';
                    assert(head.last()[j] == '/');
                }
            } else if i < head.len() {
                assert(!head[i].contains('/'));
                if s.last() == '/' {
                    assert(pieces(s)[i] == head[i]);
                } else {
                    assert(pieces(s)[i] == head[i]);
                }
            }
        }
    }
}

/// What is kept of a list stands in the list and is solid.
proof fn lemma_kept_members(list: Seq<Seq<char>>)
    ensures
        forall|i: int| 0 <= i < kept(list).len() ==> solid(#[trigger] kept(list)[i]) && list.contains(kept(list)[i]),
    decreases list.len(),
{
    if list.len() > 0 {
        let head = list.drop_last();
        lemma_kept_members(head);
        assert forall|i: int| 0 <= i < kept(list).len() implies solid(#[trigger] kept(list)[i])
            && list.contains(kept(list)[i]) by {
            if i < kept(head).len() {
                assert(kept(list)[i] == kept(head)[i]);
                let j = choose|j: int| 0 <= j < head.len() && head[j] == kept(head)[i];
                assert(list[j] == kept(list)[i]);
            } else {
                assert(list[list.len() - 1] == kept(list)[i]);
            }
        }
    }
}

/// A list of solid pieces is kept whole.
proof fn lemma_kept_all(list: Seq<Seq<char>>)
    requires
        forall|i: int| 0 <= i < list.len() ==> solid(#[trigger] list[i]),
    ensures
        kept(list) == list,
    decreases list.len(),
{
    if list.len() > 0 {
        lemma_kept_all(list.drop_last());
        assert(solid(list[list.len() - 1]));
        assert(list.drop_last().push(list.last()) =~= list);
    }
}

/// Keeping distributes over concatenation.
proof fn lemma_kept_concat(a: Seq<Seq<char>>, b: Seq<Seq<char>>)
    ensures
        kept(a + b) == kept(a) + kept(b),
    decreases b.len(),
{
    if b.len() == 0 {
        assert(a + b =~= a);
        assert(kept(a) + kept(b) =~= kept(a));
    } else {
        lemma_kept_concat(a, b.drop_last());
        assert((a + b).drop_last() =~= a + b.drop_last());
        assert((a + b).last() == b.last());
        if solid(b.last()) {
            assert(kept(a + b) =~= kept(a) + kept(b));
        }
    }
}

/// Text without a slash lengthens the last piece.
proof fn lemma_pieces_extend(a: Seq<char>, b: Seq<char>)
    requires
        !b.contains('/'),
    ensures
        pieces(a + b) == pieces(a).drop_last().push(pieces(a).last() + b),
    decreases b.len(),
{
    lemma_pieces_nonempty(a);
    if b.len() == 0 {
        assert(a + b =~= a);
        assert(pieces(a).last() + b =~= pieces(a).last());
        assert(pieces(a).drop_last().push(pieces(a).last()) =~= pieces(a));
    } else {
        let c = b.drop_last();
        assert(!c.contains('/')) by {
            if c.contains('/') {
                let j = choose|j: int| 0 <= j < c.len() && c[j] == '/';
                assert(b[j] == '/');
            }
        }
        lemma_pieces_extend(a, c);
        assert((a + b).drop_last() =~= a + c);
        assert(b[b.len() - 1] != '/');
        assert((pieces(a).last() + c).push(b.last()) =~= pieces(a).last() + b);
        assert(pieces(a + c).drop_last() =~= pieces(a).drop_last());
    }
}

/// The pieces of a joined list are the list.
proof fn lemma_pieces_of_joined(list: Seq<Seq<char>>)
    requires
        list.len() > 0,
        forall|i: int| 0 <= i < list.len() ==> !(#[trigger] list[i]).contains('/'),
    ensures
        pieces(joined_text(list, root_part())) == list,
    decreases list.len(),
{
    if list.len() == 1 {
        let e = Seq::<char>::empty();
        lemma_pieces_extend(e, list[0]);
        assert(e + list[0] =~= list[0]);
        assert(pieces(list[0]) =~= list);
    } else {
        let head = list.drop_last();
        lemma_pieces_of_joined(head);
        let j = joined_text(head, root_part());
        let k = j + root_part();
        assert(k.drop_last() =~= j);
        assert(k.last() == '/');
        assert(pieces(k) =~= head.push(Seq::empty()));
        lemma_pieces_extend(k, list.last());
        assert(joined_text(list, root_part()) =~= k + list.last());
        assert(Seq::<char>::empty() + list.last() =~= list.last());
        assert(pieces(k + list.last()) =~= list);
    }
}

/// A joined list of names starts with the first name.
proof fn lemma_joined_start(list: Seq<Seq<char>>)
    requires
        list.len() > 0,
        list[0].len() > 0,
    ensures
        joined_text(list, root_part()).len() > 0,
        joined_text(list, root_part())[0] == list[0][0],
    decreases list.len(),
{
    if list.len() > 1 {
        lemma_joined_start(list.drop_last());
        assert(list.drop_last()[0] == list[0]);
    }
}

/// A slash in front adds an empty first piece.
proof fn lemma_pieces_after_root(s: Seq<char>)
    ensures
        pieces(root_part() + s) == seq![Seq::<char>::empty()] + pieces(s),
    decreases s.len(),
{
    let r = root_part();
    if s.len() == 0 {
        assert(r + s =~= r);
        assert(r.drop_last() =~= Seq::<char>::empty());
        assert(pieces(r.drop_last()) =~= seq![Seq::<char>::empty()]);
        assert(pieces(r) =~= seq![Seq::<char>::empty()] + pieces(s));
    } else {
        let t = s.drop_last();
        lemma_pieces_after_root(t);
        lemma_pieces_nonempty(t);
        assert((r + s).drop_last() =~= r + t);
        let e = seq![Seq::<char>::empty()];
        if s.last() == '/' {
            assert((e + pieces(t)).push(Seq::empty()) =~= e + pieces(t).push(Seq::empty()));
        } else {
            assert((e + pieces(t)).last() == pieces(t).last());
            assert((e + pieces(t)).drop_last().push(pieces(t).last().push(s.last())) =~= e + pieces(
                t,
            ).drop_last().push(pieces(t).last().push(s.last())));
        }
    }
}

/// Writing a path and reading it back gives the same path.
pub proof fn law_text_round_trip(parts: Seq<Seq<char>>)
    requires
        path_wf(parts),
    ensures
        parsed(text_of(parts)) == parts,
{
    let s = text_of(parts);
    if parts.len() == 0 {
        assert(s =~= Seq::<char>::empty());
        assert(kept(pieces(s)) =~= Seq::<Seq<char>>::empty()) by {
            assert(pieces(s) =~= seq![Seq::<char>::empty()]);
            reveal_with_fuel(kept, 2);
        }
        assert(parsed(s) =~= parts);
    } else if parts[0] == root_part() {
        let rest = parts.skip(1);
        assert forall|i: int| 0 <= i < rest.len() implies solid(#[trigger] rest[i]) && !rest[i].contains('/') by {
            assert(rest[i] == parts[i + 1]);
        }
        let body = joined_text(rest, root_part());
        lemma_pieces_after_root(body);
        lemma_kept_concat(seq![Seq::<char>::empty()], pieces(body));
        assert(kept(seq![Seq::<char>::empty()]) =~= Seq::<Seq<char>>::empty()) by {
            reveal_with_fuel(kept, 2);
        }
        assert(Seq::<Seq<char>>::empty() + kept(pieces(body)) =~= kept(pieces(body)));
        if rest.len() == 0 {
            assert(body =~= Seq::<char>::empty());
            assert(kept(pieces(body)) =~= Seq::<Seq<char>>::empty()) by {
                assert(pieces(body) =~= seq![Seq::<char>::empty()]);
            }
        } else {
            lemma_pieces_of_joined(rest);
            lemma_kept_all(rest);
        }
        assert(seq![root_part()] + rest =~= parts);
    } else {
        assert forall|i: int| 0 <= i < parts.len() implies !(#[trigger] parts[i]).contains('/') by {
            if parts[i] == dot_part() {
                assert(!dot_part().contains('/'));
            }
        }
        assert(parts[0].len() > 0);
        lemma_pieces_of_joined(parts);
        lemma_joined_start(parts);
        assert(parts[0].contains(parts[0][0]));
        assert(!is_absolute_text(s));
        if parts[0] == dot_part() {
            let rest = parts.skip(1);
            assert forall|i: int| 0 <= i < rest.len() implies solid(#[trigger] rest[i]) by {
                assert(rest[i] == parts[i + 1]);
            }
            lemma_kept_all(rest);
            lemma_kept_concat(seq![dot_part()], rest);
            assert(seq![dot_part()] + rest =~= parts);
            assert(kept(seq![dot_part()]) =~= Seq::<Seq<char>>::empty()) by {
                reveal_with_fuel(kept, 2);
            }
            assert(kept(parts) =~= rest);
        } else {
            assert forall|i: int| 0 <= i < parts.len() implies solid(#[trigger] parts[i]) by {}
            lemma_kept_all(parts);
        }
    }
}

/// What text writes is a well-formed path.
pub proof fn lemma_parsed_wf(s: Seq<char>)
    ensures
        path_wf(parsed(s)),
        path_wf(kept(pieces(s))),
        forall|i: int| 0 <= i < kept(pieces(s)).len() ==> solid(#[trigger] kept(pieces(s))[i]) && !kept(pieces(s))[i].contains('/'),
{
    let k = kept(pieces(s));
    lemma_kept_members(pieces(s));
    lemma_pieces_have_no_slash(s);
    assert forall|i: int| 0 <= i < k.len() implies solid(#[trigger] k[i]) && !k[i].contains('/') by {
        let j = choose|j: int| 0 <= j < pieces(s).len() && pieces(s)[j] == k[i];
        assert(!pieces(s)[j].contains('/'));
    }
    let p = parsed(s);
    assert forall|i: int| 0 <= i < p.len() implies part_wf(#[trigger] p[i], i) by {
        if p.len() == k.len() {
            assert(p[i] == k[i]);
        } else if i > 0 {
            assert(p[i] == k[i - 1]);
        }
    }
}

/// Joining keeps paths well-formed.
pub proof fn lemma_joined_wf(base: Seq<Seq<char>>, s: Seq<char>)
    requires
        path_wf(base),
    ensures
        path_wf(path_joined(base, s)),
{
    lemma_parsed_wf(s);
    let k = kept(pieces(s));
    let p = path_joined(base, s);
    if !(is_absolute_text(s) || base.len() == 0) {
        assert forall|i: int| 0 <= i < p.len() implies part_wf(#[trigger] p[i], i) by {
            if i < base.len() {
                assert(p[i] == base[i]);
            } else {
                assert(p[i] == k[i - base.len()]);
            }
        }
    }
}

/// A character that is not a slash stands in a piece of the text.
proof fn lemma_char_in_piece(s: Seq<char>, c: char)
    requires
        s.contains(c),
        c != '/',
    ensures
        exists|i: int| 0 <= i < pieces(s).len() && (#[trigger] pieces(s)[i]).contains(c),
    decreases s.len(),
{
    let t = s.drop_last();
    let head = pieces(t);
    lemma_pieces_nonempty(t);
    if s.last() == c {
        let grown = head.last().push(c);
        assert(grown[grown.len() - 1] == c);
        assert(pieces(s)[pieces(s).len() - 1] == grown);
        assert(pieces(s)[pieces(s).len() - 1].contains(c));
    } else {
        assert(t.contains(c)) by {
            let j = choose|j: int| 0 <= j < s.len() && s[j] == c;
            assert(t[j] == c);
        }
        lemma_char_in_piece(t, c);
        let i = choose|i: int| 0 <= i < head.len() && (#[trigger] head[i]).contains(c);
        if s.last() == '/' || i < head.len() - 1 {
            assert(pieces(s)[i] == head[i]);
            assert(pieces(s)[i].contains(c));
        } else {
            let grown = head.last().push(s.last());
            let j = choose|j: int| 0 <= j < head[i].len() && head[i][j] == c;
            assert(grown[j] == c);
            assert(pieces(s)[i] == grown);
            assert(pieces(s)[i].contains(c));
        }
    }
}

/// A solid piece is kept.
proof fn lemma_solid_is_kept(list: Seq<Seq<char>>, i: int)
    requires
        0 <= i < list.len(),
        solid(list[i]),
    ensures
        kept(list).contains(list[i]),
    decreases list.len(),
{
    if i == list.len() - 1 {
        let k = kept(list);
        assert(k[k.len() - 1] == list[i]);
    } else {
        lemma_solid_is_kept(list.drop_last(), i);
        let k = kept(list.drop_last());
        let j = choose|j: int| 0 <= j < k.len() && k[j] == list[i];
        assert(kept(list)[j] == list[i]);
    }
}

/// A character of the text that is neither a slash nor a dot stands in a
/// component of the path.
pub proof fn lemma_char_in_part(s: Seq<char>, c: char)
    requires
        s.contains(c),
        c != '/',
        c != '.',
    ensures
        exists|i: int| 0 <= i < parsed(s).len() && (#[trigger] parsed(s)[i]).contains(c),
{
    lemma_char_in_piece(s, c);
    let i = choose|i: int| 0 <= i < pieces(s).len() && (#[trigger] pieces(s)[i]).contains(c);
    assert(solid(pieces(s)[i])) by {
        if pieces(s)[i] == dot_part() {
            assert(!dot_part().contains(c));
        }
    }
    lemma_solid_is_kept(pieces(s), i);
    let k = kept(pieces(s));
    let j = choose|j: int| 0 <= j < k.len() && k[j] == pieces(s)[i];
    if parsed(s).len() == k.len() {
        assert(parsed(s)[j] == pieces(s)[i]);
        assert(parsed(s)[j].contains(c));
    } else {
        assert(parsed(s)[j + 1] == pieces(s)[i]);
        assert(parsed(s)[j + 1].contains(c));
    }
}

/// The solid pieces of `s`.
fn solid_pieces(s: &str) -> (r: Vec<String>)
    ensures
        texts(r@) == kept(pieces(s@)),
{
    let chars = chars_of(s);
    let mut out: Vec<String> = Vec::new();
    let mut cur = String::new();
    let mut i: usize = 0;
    proof {
        assert(s@.take(0) =~= Seq::<char>::empty());
        assert(pieces(s@.take(0)) =~= seq![Seq::<char>::empty()]);
        assert(pieces(s@.take(0)).drop_last() =~= Seq::<Seq<char>>::empty());
        assert(texts(out@) =~= kept(Seq::<Seq<char>>::empty()));
        assert(cur@ =~= pieces(s@.take(0)).last());
    }
    while i < chars.len()
        invariant
            chars@ == s@,
            i <= chars@.len(),
            pieces(s@.take(i as int)).len() > 0,
            texts(out@) == kept(pieces(s@.take(i as int)).drop_last()),
            cur@ == pieces(s@.take(i as int)).last(),
        decreases chars.len() - i,
    {
        let ghost head = pieces(s@.take(i as int));
        let c = chars[i];
        proof {
            assert(s@.take(i + 1).drop_last() =~= s@.take(i as int));
            assert(s@.take(i + 1).last() == c);
        }
        if c == '/' {
            proof {
                assert(pieces(s@.take(i + 1)).drop_last() =~= head);
            }
            if keeps(cur.as_str()) {
                let ghost was = out@;
                out.push(cur);
                proof {
                    assert(texts(out@) =~= texts(was).push(head.last()));
                }
            }
            cur = String::new();
            proof {
                assert(cur@ =~= Seq::<char>::empty());
            }
        } else {
            cur.push(c);
            proof {
                assert(pieces(s@.take(i + 1)).drop_last() =~= head.drop_last());
            }
        }
        i += 1;
    }
    proof {
        assert(s@.take(i as int) =~= s@);
    }
    let ghost head = pieces(s@);
    if keeps(cur.as_str()) {
        let ghost was = out@;
        out.push(cur);
        proof {
            assert(texts(out@) =~= texts(was).push(head.last()));
        }
    }
    out
}

/// Whether a piece is solid.
fn keeps(piece: &str) -> (r: bool)
    ensures
        r == solid(piece@),
{
    let chars = chars_of(piece);
    if chars.len() == 0 {
        return false;
    }
    let r = !(chars.len() == 1 && chars[0] == '.');
    proof {
        if !r {
            assert(piece@ =~= dot_part());
        }
    }
    r
}

/// The first piece of `s` is `.` exactly when `s` is `.` or starts with `./`.
proof fn lemma_first_piece_dot(s: Seq<char>)
    ensures
        pieces(s)[0] == dot_part() <==> s.len() > 0 && s[0] == '.' && (s.len() == 1 || s[1] == '/'),
    decreases s.len(),
{
    reveal_with_fuel(pieces, 3);
    if s.len() == 0 {
        assert(pieces(s)[0].len() == 0);
    } else if s.len() == 1 {
        let e = s.drop_last();
        assert(e =~= Seq::<char>::empty());
        assert(pieces(e) =~= seq![Seq::<char>::empty()]);
        if s[0] == '/' {
            assert(pieces(s)[0].len() == 0);
        } else {
            assert(pieces(s)[0] =~= seq![s[0]]);
            assert(pieces(s)[0][0] == s[0]);
        }
    } else if s.len() == 2 {
        let t = s.drop_last();
        let e = t.drop_last();
        assert(e =~= Seq::<char>::empty());
        assert(pieces(e) =~= seq![Seq::<char>::empty()]);
        if t[0] == '/' {
            assert(pieces(t)[0].len() == 0);
            assert(pieces(s)[0] == pieces(t)[0]);
        } else {
            assert(pieces(t) =~= seq![seq![t[0]]]);
            if s[1] == '/' {
                assert(pieces(s)[0] =~= seq![s[0]]);
                assert(pieces(s)[0][0] == s[0]);
            } else {
                assert(pieces(s)[0].len() == 2);
            }
        }
    } else {
        let t = s.drop_last();
        lemma_first_piece_dot(t);
        lemma_pieces_nonempty(t);
        if s.last() != '/' && pieces(t).len() == 1 {
            lemma_single_piece(t);
            assert(pieces(s)[0].len() == s.len());
            assert(!(t[1] == '/'));
        } else {
            assert(pieces(s)[0] == pieces(t)[0]);
        }
    }
}

/// A text with one piece is that piece.
proof fn lemma_single_piece(s: Seq<char>)
    requires
        pieces(s).len() == 1,
    ensures
        pieces(s)[0] == s,
        !s.contains('/'),
    decreases s.len(),
{
    lemma_pieces_have_no_slash(s);
    if s.len() == 0 {
        assert(pieces(s)[0] =~= s);
    } else {
        lemma_pieces_nonempty(s.drop_last());
        lemma_single_piece(s.drop_last());
        assert(s.drop_last().push(s.last()) =~= s);
    }
}

/// `first` followed by `rest`.
fn with_front(first: &str, rest: Vec<String>) -> (r: Vec<String>)
    ensures
        texts(r@) == seq![first@] + texts(rest@),
{
    let mut out = rest;
    let ghost was = out@;
    out.insert(0, first.to_owned());
    proof {
        assert(texts(out@) =~= seq![first@] + texts(was));
    }
    out
}

impl FsPath {
    /// The path that `s` writes.
    pub fn parse(s: &str) -> (p: FsPath)
        ensures
            p@ == parsed(s@),
            path_wf(p@),
    {
        proof {
            lemma_parsed_wf(s@);
            lemma_first_piece_dot(s@);
        }
        let solid_parts = solid_pieces(s);
        let chars = chars_of(s);
        if chars.len() > 0 && chars[0] == '/' {
            proof {
                reveal_strlit("/");
                assert("/"@ =~= root_part());
            }
            FsPath { parts: with_front("/", solid_parts) }
        } else if chars.len() > 0 && chars[0] == '.' && (chars.len() == 1 || chars[1] == '/') {
            proof {
                reveal_strlit(".");
                assert("."@ =~= dot_part());
            }
            FsPath { parts: with_front(".", solid_parts) }
        } else {
            FsPath { parts: solid_parts }
        }
    }

    /// The text of the path.
    pub fn to_text(&self) -> (s: String)
        ensures
            s@ == text_of(self@),
            path_wf(self@),
    {
        proof {
            use_type_invariant(self);
            reveal_strlit("/");
            assert("/"@ =~= root_part());
        }
        if self.parts.len() > 0 && same_text(self.parts[0].as_str(), "/") {
            let mut rest = copy_texts(&self.parts);
            proof {
                assert(texts(rest@).len() == rest@.len());
                assert(self@.len() == self.parts@.len());
            }
            let ghost was = rest@;
            rest.remove(0);
            proof {
                assert(texts(rest@) =~= texts(was).skip(1));
            }
            let tail = join(&rest, "/");
            let mut out = "/".to_owned();
            out.append(tail.as_str());
            out
        } else {
            join(&self.parts, "/")
        }
    }

    /// A copy of the path.
    pub fn copy(&self) -> (p: FsPath)
        ensures
            p@ == self@,
            path_wf(p@),
    {
        proof {
            use_type_invariant(self);
        }
        FsPath { parts: copy_texts(&self.parts) }
    }

    /// Whether two paths have the same components.
    pub fn same(&self, other: &FsPath) -> (r: bool)
        ensures
            r == (self@ == other@),
    {
        if self.parts.len() != other.parts.len() {
            proof {
                assert(self@.len() != other@.len());
            }
            return false;
        }
        let r = self.starts_with(other);
        proof {
            assert(self@.take(other@.len() as int) =~= self@);
        }
        r
    }

    /// Whether the first components of the path are those of `base`.
    pub fn starts_with(&self, base: &FsPath) -> (r: bool)
        ensures
            r == base@.is_prefix_of(self@),
    {
        if base.parts.len() > self.parts.len() {
            return false;
        }
        let mut i: usize = 0;
        while i < base.parts.len()
            invariant
                i <= base.parts@.len() <= self.parts@.len(),
                forall|j: int| 0 <= j < i ==> base@[j] == self@[j],
            decreases base.parts.len() - i,
        {
            if !same_text(base.parts[i].as_str(), self.parts[i].as_str()) {
                proof {
                    assert(base@[i as int] != self@[i as int]);
                    assert(base@ != self@.take(base@.len() as int)) by {
                        assert(self@.take(base@.len() as int)[i as int] == self@[i as int]);
                    }
                }
                return false;
            }
            i += 1;
        }
        proof {
            assert(base@ =~= self@.take(base@.len() as int));
        }
        true
    }

    /// The path that `s` writes, seen from this one.
    pub fn join(&self, s: &str) -> (p: FsPath)
        ensures
            p@ == path_joined(self@, s@),
            path_wf(p@),
    {
        proof {
            use_type_invariant(self);
            lemma_joined_wf(self@, s@);
        }
        let chars = chars_of(s);
        if self.parts.len() == 0 || (chars.len() > 0 && chars[0] == '/') {
            return FsPath::parse(s);
        }
        let mut parts = copy_texts(&self.parts);
        let mut more = solid_pieces(s);
        let ghost a = parts@;
        let ghost b = more@;
        parts.append(&mut more);
        proof {
            assert(texts(parts@) =~= texts(a) + texts(b));
        }
        FsPath { parts }
    }

    /// The directory above the path.
    pub fn parent(&self) -> (r: Option<FsPath>)
        ensures
            match r {
                Some(p) => path_parent(self@) == Some(p@) && path_wf(p@),
                None => path_parent(self@) is None,
            },
    {
        proof {
            reveal_strlit("/");
            assert("/"@ =~= root_part());
        }
        let n = self.parts.len();
        if n == 0 || same_text(self.parts[n - 1].as_str(), "/") {
            return None;
        }
        let mut parts = copy_texts(&self.parts);
        let ghost was = parts@;
        proof {
            assert(texts(parts@).len() == self@.len());
        }
        parts.pop();
        proof {
            assert(texts(parts@) =~= texts(was).drop_last());
            let p = texts(parts@);
            use_type_invariant(self);
            assert forall|i: int| 0 <= i < p.len() implies part_wf(#[trigger] p[i], i) by {
                assert(p[i] == self@[i]);
            }
        }
        Some(FsPath { parts })
    }

    /// The name of the last component.
    pub fn file_name(&self) -> (r: Option<&str>)
        ensures
            match r {
                Some(s) => path_file_name(self@) == Some(s@),
                None => path_file_name(self@) is None,
            },
    {
        proof {
            reveal_strlit("/");
            reveal_strlit(".");
            reveal_strlit("..");
            assert("/"@ =~= root_part());
            assert("."@ =~= dot_part());
            assert(".."@ =~= up_part());
        }
        let n = self.parts.len();
        if n == 0 {
            return None;
        }
        let last = self.parts[n - 1].as_str();
        if same_text(last, "/") || same_text(last, ".") || same_text(last, "..") {
            None
        } else {
            Some(last)
        }
    }

    /// How many components the path has.
    pub fn depth(&self) -> (r: usize)
        ensures
            r == self@.len(),
    {
        self.parts.len()
    }

    /// Whether the path is absolute.
    pub fn is_absolute(&self) -> (r: bool)
        ensures
            r == (self@.len() > 0 && self@[0] == root_part()),
    {
        proof {
            reveal_strlit("/");
            assert("/"@ =~= root_part());
        }
        self.parts.len() > 0 && same_text(self.parts[0].as_str(), "/")
    }

    /// The path without `.`, and with each `..` taken against the name before it.
    pub fn normalize_lexical(&self) -> (p: FsPath)
        ensures
            p@ == normalized(self@),
            path_wf(p@),
    {
        proof {
            use_type_invariant(self);
            lemma_normalized_wf(self@);
            reveal_strlit("/");
            reveal_strlit(".");
            reveal_strlit("..");
            assert("/"@ =~= root_part());
            assert("."@ =~= dot_part());
            assert(".."@ =~= up_part());
        }
        let mut out: Vec<String> = Vec::new();
        let mut i: usize = 0;
        proof {
            assert(texts(out@) =~= normalized(self@.take(0)));
        }
        while i < self.parts.len()
            invariant
                i <= self.parts@.len(),
                self@ == texts(self.parts@),
                texts(out@) == normalized(self@.take(i as int)),
                "/"@ == root_part(),
                "."@ == dot_part(),
                ".."@ == up_part(),
            decreases self.parts.len() - i,
        {
            let ghost was = out@;
            let part = self.parts[i].as_str();
            proof {
                assert(self@.take(i + 1).drop_last() =~= self@.take(i as int));
                assert(self@.take(i + 1).last() == part@);
                assert(texts(was).len() == was.len());
                if was.len() > 0 {
                    assert(texts(was).last() == was.last()@);
                    assert(texts(was.drop_last()) =~= texts(was).drop_last());
                }
                assert forall|s: String| texts(was.push(s)) == #[trigger] texts(was).push(s@) by {
                    assert(texts(was.push(s)) =~= texts(was).push(s@));
                }
            }
            let n = out.len();
            if same_text(part, ".") {
            } else if same_text(part, "..") && n > 0 && same_text(out[n - 1].as_str(), "/") {
            } else if same_text(part, "..") && n > 0 && !same_text(out[n - 1].as_str(), "..") {
                out.pop();
            } else {
                out.push(part.to_owned());
                proof {
                    assert(texts(out@) =~= texts(was).push(part@));
                }
            }
            i += 1;
        }
        proof {
            assert(self@.take(i as int) =~= self@);
        }
        FsPath { parts: out }
    }
}

} // verus!
