//! What the operations on text come to.
use crate::text::{
    decimal_text, digit, first_replaced, found_from, head_before_last, head_until, joined_text, occurs_at,
    tail_after_last, with_replaced,
};
use vstd::prelude::*;

verus! {

/// The text before the first mark is how the whole begins, holds no mark, and
/// goes on to the mark or to the end.
pub proof fn law_head_ends_at_the_mark(s: Seq<char>, stop: char)
    ensures
        head_until(s, stop).is_prefix_of(s),
        !head_until(s, stop).contains(stop),
        head_until(s, stop) == s || (head_until(s, stop).len() < s.len() && s[head_until(s, stop).len() as int]
            == stop),
    decreases s.len(),
{
    let head = head_until(s, stop);
    if s.len() > 0 && s[0] != stop {
        let rest = s.drop_first();
        let tail = head_until(rest, stop);
        law_head_ends_at_the_mark(rest, stop);
        assert(head =~= s.take(head.len() as int)) by {
            assert forall|i: int| 0 <= i < head.len() implies head[i] == s[i] by {
                if i > 0 {
                    assert(head[i] == tail[i - 1]);
                    assert(tail[i - 1] == rest[i - 1]);
                }
            }
        }
        if head.contains(stop) {
            let i = choose|i: int| 0 <= i < head.len() && head[i] == stop;
            assert(tail[i - 1] == stop);
            assert(tail.contains(stop));
        }
        if tail == rest {
            assert(head =~= s);
        } else {
            assert(rest[tail.len() as int] == stop);
        }
    }
}

/// The texts around the last mark make up the whole with it, and the one behind it
/// holds no other. There are none exactly where there is no mark.
pub proof fn law_last_mark_parts_the_text(s: Seq<char>, mark: char)
    ensures
        head_before_last(s, mark) is Some <==> s.contains(mark),
        tail_after_last(s, mark) is Some <==> s.contains(mark),
        s.contains(mark) ==> {
            &&& s == head_before_last(s, mark)->0.push(mark) + tail_after_last(s, mark)->0
            &&& !tail_after_last(s, mark)->0.contains(mark)
        },
    decreases s.len(),
{
    if s.len() > 0 {
        let t = s.drop_last();
        assert(s =~= t.push(s.last()));
        if s.last() == mark {
            assert(s[s.len() - 1] == mark);
            assert(s =~= head_before_last(s, mark)->0.push(mark) + tail_after_last(s, mark)->0);
        } else {
            law_last_mark_parts_the_text(t, mark);
            if s.contains(mark) {
                let i = choose|i: int| 0 <= i < s.len() && s[i] == mark;
                assert(t[i] == mark);
            }
            if t.contains(mark) {
                let i = choose|i: int| 0 <= i < t.len() && t[i] == mark;
                assert(s[i] == mark);
                let tail = tail_after_last(t, mark)->0;
                let whole = tail_after_last(s, mark)->0;
                assert(whole == tail.push(s.last()));
                assert(s =~= head_before_last(s, mark)->0.push(mark) + whole);
                if whole.contains(mark) {
                    let j = choose|j: int| 0 <= j < whole.len() && whole[j] == mark;
                    assert(tail[j] == mark);
                    assert(tail.contains(mark));
                }
            }
        }
    }
}

/// Replacing a character leaves none of it, unless it replaces itself, and leaves
/// every other where it was.
pub proof fn law_replacing_leaves_none(s: Seq<char>, from: char, to: char)
    ensures
        with_replaced(s, from, to).len() == s.len(),
        from != to ==> !with_replaced(s, from, to).contains(from),
        forall|i: int| 0 <= i < s.len() && s[i] != from ==> #[trigger] with_replaced(s, from, to)[i] == s[i],
        forall|i: int| 0 <= i < s.len() && s[i] == from ==> #[trigger] with_replaced(s, from, to)[i] == to,
{
}

proof fn lemma_found(s: Seq<char>, needle: Seq<char>, i: int)
    requires
        0 <= i,
    ensures
        match found_from(s, needle, i) {
            Some(at) => i <= at && occurs_at(s, needle, at) && forall|j: int|
                i <= j < at ==> !#[trigger] occurs_at(s, needle, j),
            None => forall|j: int| i <= j ==> !#[trigger] occurs_at(s, needle, j),
        },
    decreases s.len() + 1 - i,
{
    if i <= s.len() && !occurs_at(s, needle, i) {
        lemma_found(s, needle, i + 1);
    }
}

/// Only the first place is replaced; a text without one stays as it is.
pub proof fn law_first_place_is_replaced(s: Seq<char>, needle: Seq<char>, with: Seq<char>, at: int)
    ensures
        (forall|j: int| !#[trigger] occurs_at(s, needle, j)) ==> first_replaced(s, needle, with) == s,
        occurs_at(s, needle, at) && (forall|j: int| 0 <= j < at ==> !#[trigger] occurs_at(s, needle, j))
            ==> first_replaced(s, needle, with) == s.take(at) + with + s.skip(at + needle.len()),
{
    lemma_found(s, needle, 0);
    if occurs_at(s, needle, at) && (forall|j: int| 0 <= j < at ==> !#[trigger] occurs_at(s, needle, j)) {
        let k = found_from(s, needle, 0)->0;
        if k < at {
            assert(!occurs_at(s, needle, k));
        }
        if at < k {
            assert(!occurs_at(s, needle, at));
        }
    }
}

/// What a row of decimal digits stands for.
pub open spec fn decimal_value(s: Seq<char>) -> int
    decreases s.len(),
{
    if s.len() == 0 {
        0
    } else {
        decimal_value(s.drop_last()) * 10 + (s.last() as int - '0' as int)
    }
}

/// A number in decimal is made of digits, begins with no zero unless it is zero,
/// and stands for the number.
pub proof fn law_decimal_text_stands_for_the_number(n: nat)
    ensures
        decimal_text(n).len() > 0,
        forall|i: int| 0 <= i < decimal_text(n).len() ==> '0' <= #[trigger] decimal_text(n)[i] <= '9',
        n > 0 ==> decimal_text(n)[0] != '0',
        decimal_value(decimal_text(n)) == n,
    decreases n,
{
    let d: nat = n % 10;
    assert(digit(d) as int - '0' as int == d && '0' <= digit(d) <= '9' && (d > 0 ==> digit(d) != '0'));
    if n < 10 {
        assert(decimal_text(n).drop_last() =~= Seq::<char>::empty());
        assert(decimal_value(Seq::<char>::empty()) == 0);
    } else {
        law_decimal_text_stands_for_the_number(n / 10);
        assert(decimal_text(n).drop_last() =~= decimal_text(n / 10));
        assert forall|i: int| 0 <= i < decimal_text(n).len() implies '0' <= #[trigger] decimal_text(n)[i] <= '9' by {
            if i < decimal_text(n / 10).len() {
                assert(decimal_text(n)[i] == decimal_text(n / 10)[i]);
            }
        }
        assert(decimal_text(n)[0] == decimal_text(n / 10)[0]);
    }
}

/// Joining two lists puts one separator between what each comes to; a list of one
/// is that text, and an empty one is nothing.
pub proof fn law_joining_puts_separators_between(a: Seq<Seq<char>>, b: Seq<Seq<char>>, sep: Seq<char>)
    ensures
        a.len() > 0 && b.len() > 0 ==> joined_text(a + b, sep) == joined_text(a, sep) + sep + joined_text(b, sep),
        a.len() == 1 ==> joined_text(a, sep) == a[0],
        a.len() == 0 ==> joined_text(a, sep).len() == 0,
    decreases b.len(),
{
    if a.len() > 0 && b.len() > 0 {
        let whole = a + b;
        assert(whole.last() == b.last());
        if b.len() == 1 {
            assert(whole.drop_last() =~= a);
        } else {
            let c = b.drop_last();
            law_joining_puts_separators_between(a, c, sep);
            assert(whole.drop_last() =~= a + c);
            let (x, y) = (joined_text(a, sep), joined_text(c, sep));
            assert(x + sep + y + sep + b.last() =~= x + sep + (y + sep + b.last()));
        }
    }
}

} // verus!
