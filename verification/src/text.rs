//! Text helpers: the order of strings, searching, and small formatting.
use vstd::prelude::*;
use vstd::utf8::{decode_utf8, encode_utf8};

verus! {

/// `a` and `b` agree on their first `n` bytes.
pub open spec fn agree(a: Seq<u8>, b: Seq<u8>, n: int) -> bool {
    &&& 0 <= n <= a.len()
    &&& n <= b.len()
    &&& forall|i: int| 0 <= i < n ==> a[i] == b[i]
}

/// `a` and `b` agree up to `n`, where `a` ends or has the smaller byte.
pub open spec fn splits_before(a: Seq<u8>, b: Seq<u8>, n: int) -> bool {
    &&& agree(a, b, n)
    &&& n < b.len()
    &&& n == a.len() || a[n] < b[n]
}

/// Lexicographic order of byte strings.
pub open spec fn bytes_before(a: Seq<u8>, b: Seq<u8>) -> bool {
    exists|n: int| splits_before(a, b, n)
}

/// The order of strings: lexicographic by their UTF-8 bytes.
pub open spec fn before(a: Seq<char>, b: Seq<char>) -> bool {
    bytes_before(encode_utf8(a), encode_utf8(b))
}

/// Nothing stands before itself.
pub proof fn lemma_before_irreflexive(a: Seq<char>)
    ensures
        !before(a, a),
{
}

/// The order is transitive.
pub proof fn lemma_before_transitive(a: Seq<char>, b: Seq<char>, c: Seq<char>)
    requires
        before(a, b),
        before(b, c),
    ensures
        before(a, c),
{
    let (x, y, z) = (encode_utf8(a), encode_utf8(b), encode_utf8(c));
    let m = choose|n: int| splits_before(x, y, n);
    let k = choose|n: int| splits_before(y, z, n);
    if m <= k {
        assert(splits_before(x, z, m));
    } else {
        assert(splits_before(x, z, k));
    }
}

/// The order is asymmetric.
pub proof fn lemma_before_asymmetric(a: Seq<char>, b: Seq<char>)
    requires
        before(a, b),
    ensures
        !before(b, a),
        a != b,
{
    if before(b, a) {
        lemma_before_transitive(a, b, a);
    }
}

/// Strings with the same bytes are the same string.
pub proof fn lemma_bytes_determine_text(a: Seq<char>, b: Seq<char>)
    requires
        encode_utf8(a) == encode_utf8(b),
    ensures
        a == b,
{
    broadcast use vstd::utf8::encode_utf8_decode_utf8;

    assert(decode_utf8(encode_utf8(a)) == a);
    assert(decode_utf8(encode_utf8(b)) == b);
}

/// How two strings relate in the order.
#[derive(Clone, Copy, Debug, PartialEq, Eq, Structural)]
pub enum TextOrder {
    Before,
    Same,
    After,
}

/// Where `a` stands relative to `b`.
pub fn compare_text(a: &str, b: &str) -> (r: TextOrder)
    ensures
        r is Before <==> before(a@, b@),
        r is Same <==> a@ == b@,
        r is After <==> before(b@, a@),
{
    let x = a.as_bytes();
    let y = b.as_bytes();
    let ghost xs = encode_utf8(a@);
    let ghost ys = encode_utf8(b@);
    let mut i: usize = 0;
    while i < x.len() && i < y.len() && x[i] == y[i]
        invariant
            x@ == xs,
            y@ == ys,
            agree(xs, ys, i as int),
        decreases x.len() - i,
    {
        i += 1;
    }
    if i < x.len() && i < y.len() {
        if x[i] < y[i] {
            proof {
                assert(splits_before(xs, ys, i as int));
                lemma_before_asymmetric(a@, b@);
            }
            TextOrder::Before
        } else {
            proof {
                assert(splits_before(ys, xs, i as int));
                lemma_before_asymmetric(b@, a@);
            }
            TextOrder::After
        }
    } else if i < y.len() {
        proof {
            assert(splits_before(xs, ys, i as int));
            lemma_before_asymmetric(a@, b@);
        }
        TextOrder::Before
    } else if i < x.len() {
        proof {
            assert(splits_before(ys, xs, i as int));
            lemma_before_asymmetric(b@, a@);
        }
        TextOrder::After
    } else {
        proof {
            assert(xs =~= ys);
            lemma_bytes_determine_text(a@, b@);
            lemma_before_irreflexive(a@);
        }
        TextOrder::Same
    }
}

/// Whether two strings are the same.
pub fn same_text(a: &str, b: &str) -> (r: bool)
    ensures
        r == (a@ == b@),
{
    match compare_text(a, b) {
        TextOrder::Same => true,
        _ => false,
    }
}

/// Whether `a` sorts strictly before `b`.
pub fn text_before(a: &str, b: &str) -> (r: bool)
    ensures
        r == before(a@, b@),
{
    match compare_text(a, b) {
        TextOrder::Before => true,
        _ => false,
    }
}

/// The characters of `s`.
pub fn chars_of(s: &str) -> (r: Vec<char>)
    ensures
        r@ == s@,
{
    let mut out: Vec<char> = Vec::new();
    for c in it: s.chars()
        invariant
            it.seq() == s@,
            out@ == s@.take(it.index() as int),
    {
        out.push(c);
    }
    proof {
        assert(s@.take(s@.len() as int) =~= s@);
    }
    out
}


/// `String::push` appends one character to the end of the string.
pub assume_specification[ String::push ](s: &mut String, c: char)
    ensures
        final(s)@ == old(s)@.push(c),
;

/// The texts of a list of strings.
pub open spec fn texts(list: Seq<String>) -> Seq<Seq<char>> {
    list.map_values(|s: String| s@)
}

/// The text of an optional string.
pub open spec fn opt_text(s: Option<String>) -> Option<Seq<char>> {
    match s {
        Some(t) => Some(t@),
        None => None,
    }
}

/// `pattern` stands in `s` at index `i`.
pub open spec fn occurs_at(s: Seq<char>, pattern: Seq<char>, i: int) -> bool {
    &&& 0 <= i
    &&& i + pattern.len() <= s.len()
    &&& s.subrange(i, i + pattern.len()) == pattern
}

/// `pattern` stands somewhere in `s`.
pub open spec fn occurs(s: Seq<char>, pattern: Seq<char>) -> bool {
    exists|i: int| occurs_at(s, pattern, i)
}

/// Whether `pattern` stands in `s` at index `i`.
fn stands_at(s: &Vec<char>, pattern: &Vec<char>, i: usize) -> (r: bool)
    requires
        i + pattern@.len() <= s@.len(),
    ensures
        r == occurs_at(s@, pattern@, i as int),
{
    let total = s.len();
    let mut k: usize = 0;
    while k < pattern.len()
        invariant
            i + pattern@.len() <= s@.len(),
            total == s@.len(),
            k <= pattern@.len(),
            forall|j: int| 0 <= j < k ==> s@[i + j] == pattern@[j],
        decreases pattern.len() - k,
    {
        if s[i + k] != pattern[k] {
            proof {
                assert(s@.subrange(i as int, i + pattern@.len())[k as int] != pattern@[k as int]);
            }
            return false;
        }
        k += 1;
    }
    proof {
        assert(s@.subrange(i as int, i + pattern@.len()) =~= pattern@);
    }
    true
}

/// The index of the first place where `pattern` stands in `s`.
pub fn find_text(s: &str, pattern: &str) -> (r: Option<usize>)
    ensures
        match r {
            Some(i) => occurs_at(s@, pattern@, i as int) && forall|j: int|
                0 <= j < i ==> !occurs_at(s@, pattern@, j),
            None => !occurs(s@, pattern@),
        },
{
    let hay = chars_of(s);
    let needle = chars_of(pattern);
    if needle.len() > hay.len() {
        return None;
    }
    let last: usize = hay.len() - needle.len();
    let mut i: usize = 0;
    loop
        invariant
            hay@ == s@,
            needle@ == pattern@,
            last + needle@.len() == hay@.len(),
            i <= last,
            forall|j: int| 0 <= j < i ==> !occurs_at(s@, pattern@, j),
        decreases last - i,
    {
        if stands_at(&hay, &needle, i) {
            return Some(i);
        }
        if i == last {
            return None;
        }
        i += 1;
    }
}

/// Whether `pattern` stands somewhere in `s`.
pub fn contains_text(s: &str, pattern: &str) -> (r: bool)
    ensures
        r == occurs(s@, pattern@),
{
    match find_text(s, pattern) {
        Some(_) => true,
        None => false,
    }
}

/// Whether `s` starts with `prefix`.
pub fn starts_with(s: &str, prefix: &str) -> (r: bool)
    ensures
        r == prefix@.is_prefix_of(s@),
{
    let hay = chars_of(s);
    let needle = chars_of(prefix);
    if needle.len() > hay.len() {
        return false;
    }
    let r = stands_at(&hay, &needle, 0);
    proof {
        assert(s@.subrange(0, prefix@.len() as int) =~= s@.take(prefix@.len() as int));
    }
    r
}

/// The text before the first `stop`, or all of it when there is none.
pub open spec fn head_until(s: Seq<char>, stop: char) -> Seq<char>
    decreases s.len(),
{
    if s.len() == 0 || s[0] == stop {
        Seq::empty()
    } else {
        seq![s[0]] + head_until(s.drop_first(), stop)
    }
}

/// The text before the first `stop` holds no `stop`, and ends where `s` does or at a `stop`.
pub proof fn lemma_head_until(s: Seq<char>, stop: char, n: int)
    requires
        0 <= n <= s.len(),
        forall|i: int| 0 <= i < n ==> s[i] != stop,
        n == s.len() || s[n] == stop,
    ensures
        head_until(s, stop) == s.take(n),
    decreases n,
{
    if n > 0 {
        lemma_head_until(s.drop_first(), stop, n - 1);
        assert(seq![s[0]] + s.drop_first().take(n - 1) =~= s.take(n));
    } else {
        assert(s.take(0) =~= Seq::empty());
    }
}

/// The text before the first `stop`.
pub fn text_until(s: &str, stop: char) -> (r: String)
    ensures
        r@ == head_until(s@, stop),
{
    let chars = chars_of(s);
    let mut out = String::new();
    let mut i: usize = 0;
    while i < chars.len() && chars[i] != stop
        invariant
            chars@ == s@,
            i <= chars@.len(),
            out@ == s@.take(i as int),
            forall|j: int| 0 <= j < i ==> s@[j] != stop,
        decreases chars.len() - i,
    {
        out.push(chars[i]);
        i += 1;
        proof {
            assert(s@.take(i as int) =~= s@.take(i - 1).push(s@[i - 1]));
        }
    }
    proof {
        lemma_head_until(s@, stop, i as int);
    }
    out
}

/// `s` parted at its last `mark`.
pub open spec fn parted_at_last(s: Seq<char>, mark: char, head: Seq<char>, tail: Seq<char>) -> bool {
    &&& s == head.push(mark) + tail
    &&& !tail.contains(mark)
}

/// Part `s` at its last `mark`; the mark itself is left out.
pub fn rsplit_once(s: &str, mark: char) -> (r: Option<(String, String)>)
    ensures
        match r {
            Some(p) => parted_at_last(s@, mark, p.0@, p.1@),
            None => !s@.contains(mark),
        },
{
    let chars = chars_of(s);
    let mut i: usize = chars.len();
    while i > 0 && chars[i - 1] != mark
        invariant
            chars@ == s@,
            i <= chars@.len(),
            forall|j: int| i <= j < s@.len() ==> s@[j] != mark,
        decreases i,
    {
        i -= 1;
    }
    if i == 0 {
        return None;
    }
    let head = s.substring_char(0, i - 1).to_owned();
    let tail = s.substring_char(i, chars.len()).to_owned();
    proof {
        assert(s@ =~= head@.push(mark) + tail@);
    }
    Some((head, tail))
}

/// Every `from` replaced by `to`.
pub open spec fn with_replaced(s: Seq<char>, from: char, to: char) -> Seq<char> {
    s.map_values(|c: char| if c == from { to } else { c })
}

/// `s` with every `from` replaced by `to`.
pub fn replace_char(s: &str, from: char, to: char) -> (r: String)
    ensures
        r@ == with_replaced(s@, from, to),
{
    let chars = chars_of(s);
    let mut out = String::new();
    let mut i: usize = 0;
    while i < chars.len()
        invariant
            chars@ == s@,
            i <= chars@.len(),
            out@ == with_replaced(s@.take(i as int), from, to),
        decreases chars.len() - i,
    {
        out.push(if chars[i] == from { to } else { chars[i] });
        i += 1;
        proof {
            assert(s@.take(i as int) =~= s@.take(i - 1).push(s@[i - 1]));
            assert(with_replaced(s@.take(i as int), from, to) =~= with_replaced(s@.take(i - 1), from, to).push(
                if s@[i - 1] == from { to } else { s@[i - 1] },
            ));
        }
    }
    proof {
        assert(s@.take(i as int) =~= s@);
    }
    out
}

/// The first index from `i` on where `needle` stands in `s`.
pub open spec fn found_from(s: Seq<char>, needle: Seq<char>, i: int) -> Option<int>
    decreases s.len() + 1 - i,
{
    if i > s.len() {
        None
    } else if occurs_at(s, needle, i) {
        Some(i)
    } else {
        found_from(s, needle, i + 1)
    }
}

/// The first `needle` in `s` replaced by `with`; `s` itself where there is none.
pub open spec fn first_replaced(s: Seq<char>, needle: Seq<char>, with: Seq<char>) -> Seq<char> {
    match found_from(s, needle, 0) {
        Some(i) => s.take(i) + with + s.skip(i + needle.len()),
        None => s,
    }
}

/// The first place is the one before which there is none.
proof fn lemma_found_from(s: Seq<char>, needle: Seq<char>, i: int, at: int)
    requires
        0 <= i <= at,
        forall|j: int| i <= j < at ==> !occurs_at(s, needle, j),
        occurs_at(s, needle, at) || at > s.len(),
    ensures
        found_from(s, needle, i) == if occurs_at(s, needle, at) {
            Some(at)
        } else {
            None
        },
    decreases at - i,
{
    if i < at && i <= s.len() {
        lemma_found_from(s, needle, i + 1, at);
    }
}

/// `s` with its first `needle` replaced by `with`.
pub fn replace_first(s: &str, needle: &str, with: &str) -> (r: String)
    ensures
        r@ == first_replaced(s@, needle@, with@),
{
    match find_text(s, needle) {
        None => {
            proof {
                lemma_found_from(s@, needle@, 0, s@.len() as int + 1);
            }
            s.to_owned()
        },
        Some(i) => {
            let n = chars_of(needle).len();
            let len = chars_of(s).len();
            let mut out = s.substring_char(0, i).to_owned();
            out.append(with);
            out.append(s.substring_char(i + n, len));
            proof {
                lemma_found_from(s@, needle@, 0, i as int);
                assert(s@.subrange(0, i as int) =~= s@.take(i as int));
                assert(s@.subrange(i + n, len as int) =~= s@.skip(i + n));
            }
            out
        },
    }
}

/// The text before the last `mark`.
pub open spec fn head_before_last(s: Seq<char>, mark: char) -> Option<Seq<char>>
    decreases s.len(),
{
    if s.len() == 0 {
        None
    } else if s.last() == mark {
        Some(s.drop_last())
    } else {
        head_before_last(s.drop_last(), mark)
    }
}

/// Parting at the last mark leaves the text before it.
proof fn lemma_head_before_last(s: Seq<char>, mark: char, head: Seq<char>, tail: Seq<char>)
    requires
        parted_at_last(s, mark, head, tail),
    ensures
        head_before_last(s, mark) == Some(head),
    decreases tail.len(),
{
    if tail.len() == 0 {
        assert(s.drop_last() =~= head);
    } else {
        let t = tail.drop_last();
        assert(tail.contains(tail[tail.len() - 1]));
        assert(!t.contains(mark)) by {
            if t.contains(mark) {
                let j = choose|j: int| 0 <= j < t.len() && t[j] == mark;
                assert(tail[j] == mark);
            }
        }
        assert(s.drop_last() =~= head.push(mark) + t);
        lemma_head_before_last(s.drop_last(), mark, head, t);
    }
}

/// A text without the mark has nothing before it.
proof fn lemma_no_head(s: Seq<char>, mark: char)
    requires
        !s.contains(mark),
    ensures
        head_before_last(s, mark) is None,
    decreases s.len(),
{
    if s.len() > 0 {
        assert(s.contains(s[s.len() - 1]));
        let t = s.drop_last();
        assert(!t.contains(mark)) by {
            if t.contains(mark) {
                let j = choose|j: int| 0 <= j < t.len() && t[j] == mark;
                assert(s[j] == mark);
            }
        }
        lemma_no_head(t, mark);
    }
}

/// The text before the last `mark`, where there is one.
pub fn text_before_last(s: &str, mark: char) -> (r: Option<String>)
    ensures
        opt_text(r) == head_before_last(s@, mark),
{
    match rsplit_once(s, mark) {
        Some((head, tail)) => {
            proof {
                lemma_head_before_last(s@, mark, head@, tail@);
            }
            Some(head)
        },
        None => {
            proof {
                lemma_no_head(s@, mark);
            }
            None
        },
    }
}

/// The decimal digit of `d`.
pub open spec fn digit(d: nat) -> char {
    seq!['0', '1', '2', '3', '4', '5', '6', '7', '8', '9'][d as int]
}

/// `n` in decimal.
pub open spec fn decimal_text(n: nat) -> Seq<char>
    decreases n,
{
    if n < 10 {
        seq![digit(n)]
    } else {
        decimal_text(n / 10).push(digit(n % 10))
    }
}

fn digit_char(d: usize) -> (c: char)
    requires
        d < 10,
    ensures
        c == digit(d as nat),
{
    match d {
        0 => '0',
        1 => '1',
        2 => '2',
        3 => '3',
        4 => '4',
        5 => '5',
        6 => '6',
        7 => '7',
        8 => '8',
        _ => '9',
    }
}

/// `n` written in decimal.
pub fn decimal(n: usize) -> (r: String)
    ensures
        r@ == decimal_text(n as nat),
    decreases n,
{
    if n < 10 {
        let mut out = String::new();
        out.push(digit_char(n));
        proof {
            assert(out@ =~= seq![digit(n as nat)]);
        }
        out
    } else {
        let mut out = decimal(n / 10);
        out.push(digit_char(n % 10));
        out
    }
}

/// The texts of `list` with `sep` between them.
pub open spec fn joined_text(list: Seq<Seq<char>>, sep: Seq<char>) -> Seq<char>
    decreases list.len(),
{
    if list.len() == 0 {
        Seq::empty()
    } else if list.len() == 1 {
        list[0]
    } else {
        joined_text(list.drop_last(), sep) + sep + list.last()
    }
}

/// The strings of `list` with `sep` between them.
pub fn join(list: &Vec<String>, sep: &str) -> (r: String)
    ensures
        r@ == joined_text(texts(list@), sep@),
{
    let mut out = String::new();
    let ghost all = texts(list@);
    let mut i: usize = 0;
    while i < list.len()
        invariant
            i <= list@.len(),
            all == texts(list@),
            out@ == joined_text(all.take(i as int), sep@),
        decreases list.len() - i,
    {
        if i > 0 {
            out.append(sep);
        }
        out.append(list[i].as_str());
        i += 1;
        proof {
            assert(all.take(i as int).drop_last() =~= all.take(i - 1));
            assert(all.take(i as int).last() == list@[i - 1]@);
            assert(Seq::<char>::empty() + list@[i - 1]@ =~= list@[i - 1]@);
        }
    }
    proof {
        assert(all.take(i as int) =~= all);
    }
    out
}

/// `a` followed by `b`.
pub fn concat(a: &str, b: &str) -> (r: String)
    ensures
        r@ == a@ + b@,
{
    let mut out = a.to_owned();
    out.append(b);
    out
}

/// `a`, `b` and `c` one after the other.
pub fn concat3(a: &str, b: &str, c: &str) -> (r: String)
    ensures
        r@ == a@ + b@ + c@,
{
    let mut out = a.to_owned();
    out.append(b);
    out.append(c);
    out
}

/// A copy of every string of `list`.
pub fn copy_texts(list: &Vec<String>) -> (r: Vec<String>)
    ensures
        texts(r@) == texts(list@),
{
    let mut out: Vec<String> = Vec::new();
    let mut i: usize = 0;
    while i < list.len()
        invariant
            i <= list@.len(),
            texts(out@) == texts(list@).take(i as int),
        decreases list.len() - i,
    {
        let ghost before_push = out@;
        out.push(list[i].clone());
        i += 1;
        proof {
            assert(texts(out@) =~= texts(before_push).push(list@[i - 1]@));
            assert(texts(list@).take(i as int) =~= texts(list@).take(i - 1).push(list@[i - 1]@));
        }
    }
    proof {
        assert(texts(list@).take(i as int) =~= texts(list@));
    }
    out
}

/// The text after the last `mark`.
pub open spec fn tail_after_last(s: Seq<char>, mark: char) -> Option<Seq<char>>
    decreases s.len(),
{
    if s.len() == 0 {
        None
    } else if s.last() == mark {
        Some(Seq::empty())
    } else {
        match tail_after_last(s.drop_last(), mark) {
            Some(t) => Some(t.push(s.last())),
            None => None,
        }
    }
}

/// What follows the last mark.
pub proof fn lemma_tail_after_last(s: Seq<char>, mark: char, head: Seq<char>, tail: Seq<char>)
    requires
        parted_at_last(s, mark, head, tail),
    ensures
        tail_after_last(s, mark) == Some(tail),
    decreases tail.len(),
{
    if tail.len() == 0 {
        assert(s.last() == mark);
        assert(tail =~= Seq::<char>::empty());
    } else {
        let t = tail.drop_last();
        assert(tail.contains(tail[tail.len() - 1]));
        assert(!t.contains(mark)) by {
            if t.contains(mark) {
                let j = choose|j: int| 0 <= j < t.len() && t[j] == mark;
                assert(tail[j] == mark);
            }
        }
        assert(s.drop_last() =~= head.push(mark) + t);
        lemma_tail_after_last(s.drop_last(), mark, head, t);
        assert(t.push(tail.last()) =~= tail);
    }
}

/// A text without the mark has nothing after it.
proof fn lemma_no_tail(s: Seq<char>, mark: char)
    requires
        !s.contains(mark),
    ensures
        tail_after_last(s, mark) is None,
    decreases s.len(),
{
    if s.len() > 0 {
        assert(s.contains(s[s.len() - 1]));
        let t = s.drop_last();
        assert(!t.contains(mark)) by {
            if t.contains(mark) {
                let j = choose|j: int| 0 <= j < t.len() && t[j] == mark;
                assert(s[j] == mark);
            }
        }
        lemma_no_tail(t, mark);
    }
}

/// The text after the last `mark`, where there is one.
pub fn text_after_last(s: &str, mark: char) -> (r: Option<String>)
    ensures
        opt_text(r) == tail_after_last(s@, mark),
{
    match rsplit_once(s, mark) {
        Some((head, tail)) => {
            proof {
                lemma_tail_after_last(s@, mark, head@, tail@);
            }
            Some(tail)
        },
        None => {
            proof {
                lemma_no_tail(s@, mark);
            }
            None
        },
    }
}

} // verus!
