//! Text as sequences of characters: order and suffixes.

use vstd::prelude::*;
use vstd::string::*;

verus! {

/// `a` and `b` agree before position `i`, and there `a` ends or has the
/// smaller character.
pub open spec fn less_at(a: Seq<char>, b: Seq<char>, i: int) -> bool {
    &&& 0 <= i <= a.len()
    &&& i < b.len()
    &&& forall|j: int| 0 <= j < i ==> a[j] == b[j]
    &&& i < a.len() ==> (a[i] as int) < (b[i] as int)
}

/// The order of Rust strings: character by character, a proper prefix first.
pub open spec fn text_lt(a: Seq<char>, b: Seq<char>) -> bool {
    exists|i: int| less_at(a, b, i)
}

/// `a` is `b` or stands before it.
pub open spec fn text_le(a: Seq<char>, b: Seq<char>) -> bool {
    a == b || text_lt(a, b)
}

/// Nothing stands before itself.
pub proof fn lemma_text_irreflexive(a: Seq<char>)
    ensures
        !text_lt(a, a),
{
}

/// The order is transitive.
pub proof fn lemma_text_transitive(a: Seq<char>, b: Seq<char>, c: Seq<char>)
    requires
        text_lt(a, b),
        text_lt(b, c),
    ensures
        text_lt(a, c),
{
    let i = choose|i: int| less_at(a, b, i);
    let j = choose|j: int| less_at(b, c, j);
    if i <= j {
        assert(less_at(a, c, i));
    } else {
        assert(less_at(a, c, j));
    }
}

/// Of two different texts one stands before the other.
pub proof fn lemma_text_total(a: Seq<char>, b: Seq<char>)
    ensures
        a == b || text_lt(a, b) || text_lt(b, a),
{
    lemma_text_total_from(a, b, 0);
}

proof fn lemma_text_total_from(a: Seq<char>, b: Seq<char>, i: int)
    requires
        0 <= i <= a.len(),
        i <= b.len(),
        forall|j: int| 0 <= j < i ==> a[j] == b[j],
    ensures
        a == b || text_lt(a, b) || text_lt(b, a),
    decreases a.len() - i,
{
    if i == a.len() || i == b.len() {
        if a.len() == b.len() {
            assert(a =~= b);
        } else if i == a.len() {
            assert(less_at(a, b, i));
        } else {
            assert(less_at(b, a, i));
        }
    } else if a[i] == b[i] {
        lemma_text_total_from(a, b, i + 1);
    } else if (a[i] as int) < (b[i] as int) {
        assert(less_at(a, b, i));
    } else {
        assert(less_at(b, a, i));
    }
}

/// The order as a relation on names.
pub open spec fn name_order() -> spec_fn(Seq<char>, Seq<char>) -> bool {
    |a: Seq<char>, b: Seq<char>| text_le(a, b)
}

/// Names are totally ordered.
pub proof fn lemma_name_order_total()
    ensures
        vstd::relations::total_ordering(name_order()),
{
    let r = name_order();
    assert forall|x: Seq<char>, y: Seq<char>| #[trigger] r(x, y) && #[trigger] r(y, x) implies x
        == y by {
        if x != y {
            lemma_text_transitive(x, y, x);
            lemma_text_irreflexive(x);
        }
    }
    assert forall|x: Seq<char>, y: Seq<char>, z: Seq<char>| #[trigger]
        r(x, y) && #[trigger] r(y, z) implies r(x, z) by {
        if x != y && y != z {
            lemma_text_transitive(x, y, z);
        }
    }
    assert forall|x: Seq<char>, y: Seq<char>| #[trigger] r(x, y) || #[trigger] r(y, x) by {
        lemma_text_total(x, y);
    }
}

/// The characters of a string.
pub fn chars_of(s: &str) -> (v: Vec<char>)
    ensures
        v@ == s@,
{
    let mut v: Vec<char> = Vec::new();
    for c in it: s.chars()
        invariant
            it.seq() == s@,
            v@ == s@.take(it.index() as int),
    {
        v.push(c);
        assert(v@ =~= s@.take(it.index() as int + 1));
    }
    assert(s@.take(s@.len() as int) =~= s@);
    v
}

/// Compares two strings by the order of their characters.
pub fn str_lt(a: &str, b: &str) -> (r: bool)
    ensures
        r == text_lt(a@, b@),
{
    chars_lt(&chars_of(a), &chars_of(b))
}

fn chars_lt(a: &Vec<char>, b: &Vec<char>) -> (r: bool)
    ensures
        r == text_lt(a@, b@),
{
    let mut i: usize = 0;
    while i < a.len() && i < b.len() && a[i] == b[i]
        invariant
            i <= a.len(),
            i <= b.len(),
            forall|j: int| 0 <= j < i ==> a@[j] == b@[j],
        decreases a.len() - i,
    {
        i += 1;
    }
    let less: bool = if i == b.len() {
        false
    } else if i == a.len() {
        true
    } else {
        a[i] < b[i]
    };
    proof {
        if less {
            assert(less_at(a@, b@, i as int));
        } else if text_lt(a@, b@) {
            let k = choose|k: int| less_at(a@, b@, k);
            assert(k == i);
        }
    }
    less
}

/// `s` ends with `suffix`.
pub open spec fn has_suffix(s: Seq<char>, suffix: Seq<char>) -> bool {
    s.len() >= suffix.len() && s.skip(s.len() - suffix.len()) == suffix
}

/// `s` without its last `n` characters.
pub open spec fn without_last(s: Seq<char>, n: nat) -> Seq<char> {
    s.take(s.len() - n)
}

/// Whether `s` ends with `suffix`.
pub fn ends_with(s: &str, suffix: &str) -> (r: bool)
    ensures
        r == has_suffix(s@, suffix@),
{
    let n: usize = s.unicode_len();
    let m: usize = suffix.unicode_len();
    if n < m {
        return false;
    }
    let tail: String = s.substring_char(n - m, n).to_owned();
    assert(tail@ =~= s@.skip(n - m));
    tail == suffix.to_owned()
}

/// A text stands before every longer text that begins with it.
pub proof fn law_prefix_comes_first(a: Seq<char>, rest: Seq<char>)
    requires
        rest.len() > 0,
    ensures
        text_lt(a, a + rest),
        !text_lt(a + rest, a),
        text_le(a, a),
        text_le(a, a + rest),
        !text_le(a + rest, a),
{
    assert(less_at(a, a + rest, a.len() as int));
    if text_lt(a + rest, a) {
        lemma_text_transitive(a, a + rest, a);
        lemma_text_irreflexive(a);
    }
    assert((a + rest).len() != a.len());
}

/// Where two texts differ for the first time, the smaller character decides,
/// whatever follows.
pub proof fn law_first_difference_decides(
    front: Seq<char>,
    x: char,
    a: Seq<char>,
    y: char,
    b: Seq<char>,
)
    requires
        (x as int) < (y as int),
    ensures
        text_lt(front + seq![x] + a, front + seq![y] + b),
        !text_lt(front + seq![y] + b, front + seq![x] + a),
        text_le(front + seq![x] + a, front + seq![y] + b),
        !text_le(front + seq![y] + b, front + seq![x] + a),
{
    let left = front + seq![x] + a;
    let right = front + seq![y] + b;
    let n = front.len() as int;
    assert(left[n] == x && right[n] == y);
    assert(less_at(left, right, n));
    if text_lt(right, left) {
        lemma_text_transitive(left, right, left);
        lemma_text_irreflexive(left);
    }
}

/// A text ends with what was put at its end, and with nothing else of that length;
/// cut off, it leaves what was there before.
pub proof fn law_suffix_is_what_was_added(front: Seq<char>, back: Seq<char>, other: Seq<char>)
    requires
        other.len() == back.len(),
    ensures
        has_suffix(front + back, back),
        has_suffix(front + back, other) ==> other == back,
        without_last(front + back, back.len()) == front,
{
    let whole = front + back;
    assert(whole.skip(whole.len() - back.len()) =~= back);
    assert(without_last(whole, back.len()) =~= front);
}

/// A text shorter than another does not end with it.
pub proof fn law_suffix_is_no_longer(s: Seq<char>, suffix: Seq<char>)
    requires
        s.len() < suffix.len(),
    ensures
        !has_suffix(s, suffix),
{
}

} // verus!
