//! What holds of every page of frames.

use crate::listing;
use crate::text;
use vstd::prelude::*;
use vstd::string::*;

verus! {

/// Filtering a sequence filters what it holds.
proof fn lemma_filter_multiset<A>(s: Seq<A>, p: spec_fn(A) -> bool)
    ensures
        s.filter(p).to_multiset() == s.to_multiset().filter(p),
    decreases s.len(),
{
    broadcast use vstd::seq_lib::group_to_multiset_ensures;

    reveal(Seq::filter);
    if s.len() == 0 {
        assert(s.to_multiset() =~= vstd::multiset::Multiset::empty());
        assert(s.filter(p).to_multiset() =~= s.to_multiset().filter(p));
    } else {
        lemma_filter_multiset(s.drop_last(), p);
        assert(s =~= s.drop_last().push(s.last()));
        assert(s.filter(p).to_multiset() =~= s.to_multiset().filter(p));
    }
}

/// What the sorted listing is: it is in order and holds the listed files.
pub proof fn lemma_ascending(
    names: Seq<Seq<char>>,
    before: Option<Seq<char>>,
    after: Option<Seq<char>>,
)
    ensures
        listing::is_ascending(listing::ascending(names, before, after)),
        listing::ascending(names, before, after).to_multiset() == names.to_multiset().filter(
            listing::is_listed(before, after),
        ),
        forall|x: Seq<char>| #[trigger]
            listing::ascending(names, before, after).contains(x) <==> names.contains(x)
                && listing::is_listed(before, after)(x),
{
    broadcast use vstd::seq_lib::group_to_multiset_ensures;

    let p = listing::is_listed(before, after);
    text::lemma_name_order_total();
    names.filter(p).lemma_sort_by_ensures(text::name_order());
    lemma_filter_multiset(names, p);
    let asc = listing::ascending(names, before, after);
    assert forall|x: Seq<char>| #[trigger] asc.contains(x) <==> names.contains(x) && p(x) by {
        assert(asc.contains(x) <==> asc.to_multiset().count(x) > 0);
        assert(names.contains(x) <==> names.to_multiset().count(x) > 0);
    }
}

/// The order in which the directory is read makes no difference.
pub proof fn law_directory_order(
    names: Seq<Seq<char>>,
    others: Seq<Seq<char>>,
    last: Option<usize>,
    before: Option<Seq<char>>,
    first: Option<usize>,
    after: Option<Seq<char>>,
)
    requires
        names.to_multiset() == others.to_multiset(),
    ensures
        listing::page(names, last, before, first, after) == listing::page(
            others,
            last,
            before,
            first,
            after,
        ),
{
    lemma_ascending(names, before, after);
    lemma_ascending(others, before, after);
    text::lemma_name_order_total();
    vstd::seq_lib::lemma_sorted_unique(
        listing::ascending(names, before, after),
        listing::ascending(others, before, after),
        text::name_order(),
    );
}

/// A page is a stretch of the sorted listing, turned round.
proof fn lemma_page_is_stretch(
    names: Seq<Seq<char>>,
    last: Option<usize>,
    before: Option<Seq<char>>,
    first: Option<usize>,
    after: Option<Seq<char>>,
) -> (r: (int, int))
    ensures
        0 <= r.0 <= r.1 <= listing::ascending(names, before, after).len(),
        listing::page(names, last, before, first, after) == listing::ascending(
            names,
            before,
            after,
        ).subrange(r.0, r.1).reverse(),
        first is None ==> r.1 == listing::ascending(names, before, after).len(),
        first matches Some(f) ==> r.1 == (if f < listing::ascending(names, before, after).len() {
            f as int
        } else {
            listing::ascending(names, before, after).len() as int
        }),
        r.1 - r.0 <= listing::MAX_PAGE_SIZE,
        last matches Some(l) ==> r.1 - r.0 <= l,
        r.0 > 0 ==> r.1 - r.0 == listing::MAX_PAGE_SIZE || (last matches Some(l) && r.1 - r.0 == l),
{
    let asc = listing::ascending(names, before, after);
    let hi = match first {
        Some(f) => if f < asc.len() {
            f as int
        } else {
            asc.len() as int
        },
        None => asc.len() as int,
    };
    let n1 = match last {
        Some(l) => if l < hi {
            l as int
        } else {
            hi
        },
        None => hi,
    };
    let n = if n1 < listing::MAX_PAGE_SIZE {
        n1
    } else {
        listing::MAX_PAGE_SIZE as int
    };
    let turned = listing::at_most(asc, first).reverse();
    assert(listing::at_most(asc, first) =~= asc.take(hi));
    assert(listing::at_most(turned, last) =~= turned.take(n1));
    assert(listing::page(names, last, before, first, after) =~= asc.subrange(hi - n, hi).reverse());
    (hi - n, hi)
}

/// A page holds no more than a page may, than `last` and than `first` ask for.
pub proof fn law_page_is_bounded(
    names: Seq<Seq<char>>,
    last: Option<usize>,
    before: Option<Seq<char>>,
    first: Option<usize>,
    after: Option<Seq<char>>,
)
    ensures
        listing::page(names, last, before, first, after).len() <= listing::MAX_PAGE_SIZE,
        last matches Some(l) ==> listing::page(names, last, before, first, after).len() <= l,
        first matches Some(f) ==> listing::page(names, last, before, first, after).len() <= f,
{
    let r = lemma_page_is_stretch(names, last, before, first, after);
}

/// Every file on a page is a stored full-size picture whose cursor stands
/// strictly between the bounds.
pub proof fn law_page_in_window(
    names: Seq<Seq<char>>,
    last: Option<usize>,
    before: Option<Seq<char>>,
    first: Option<usize>,
    after: Option<Seq<char>>,
    i: int,
)
    requires
        0 <= i < listing::page(names, last, before, first, after).len(),
    ensures
        names.contains(listing::page(names, last, before, first, after)[i]),
        listing::is_frame_file(listing::page(names, last, before, first, after)[i]),
        listing::in_window(
            listing::cursor_of(listing::page(names, last, before, first, after)[i]),
            before,
            after,
        ),
{
    let r = lemma_page_is_stretch(names, last, before, first, after);
    lemma_ascending(names, before, after);
    let asc = listing::ascending(names, before, after);
    let p = listing::page(names, last, before, first, after);
    assert(p[i] == asc[r.1 - 1 - i]);
    assert(asc.contains(p[i]));
}

/// A page shows the newest frame first: no name is followed by a greater one,
/// and none is repeated where the directory holds each name once.
pub proof fn law_newest_first(
    names: Seq<Seq<char>>,
    last: Option<usize>,
    before: Option<Seq<char>>,
    first: Option<usize>,
    after: Option<Seq<char>>,
    i: int,
    j: int,
)
    requires
        0 <= i < j < listing::page(names, last, before, first, after).len(),
    ensures
        text::text_le(
            listing::page(names, last, before, first, after)[j],
            listing::page(names, last, before, first, after)[i],
        ),
        names.no_duplicates() ==> text::text_lt(
            listing::page(names, last, before, first, after)[j],
            listing::page(names, last, before, first, after)[i],
        ),
{
    let r = lemma_page_is_stretch(names, last, before, first, after);
    lemma_ascending(names, before, after);
    let asc = listing::ascending(names, before, after);
    let p = listing::page(names, last, before, first, after);
    assert(p[i] == asc[r.1 - 1 - i]);
    assert(p[j] == asc[r.1 - 1 - j]);
    assert(text::name_order()(asc[r.1 - 1 - j], asc[r.1 - 1 - i]));
    if names.no_duplicates() {
        lemma_ascending_has_no_duplicates(names, before, after);
    }
}

/// A directory that holds each name once is listed without repetition.
proof fn lemma_ascending_has_no_duplicates(
    names: Seq<Seq<char>>,
    before: Option<Seq<char>>,
    after: Option<Seq<char>>,
)
    requires
        names.no_duplicates(),
    ensures
        listing::ascending(names, before, after).no_duplicates(),
{
    broadcast use vstd::seq_lib::group_to_multiset_ensures;

    lemma_ascending(names, before, after);
    names.lemma_multiset_has_no_duplicates();
    let asc = listing::ascending(names, before, after);
    assert forall|x: Seq<char>| asc.to_multiset().contains(x) implies asc.to_multiset().count(x)
        == 1 by {
        assert(names.to_multiset().contains(x));
    }
    asc.lemma_multiset_has_no_duplicates_conv();
}

/// Without `first`, a page holds the newest of the listed frames: a listed
/// frame that is missing is no newer than any that is there, and one is
/// missing only where the page is full.
pub proof fn law_page_keeps_newest(
    names: Seq<Seq<char>>,
    last: Option<usize>,
    before: Option<Seq<char>>,
    after: Option<Seq<char>>,
    x: Seq<char>,
)
    requires
        names.contains(x),
        listing::is_listed(before, after)(x),
        !listing::page(names, last, before, None, after).contains(x),
    ensures
        forall|i: int|
            0 <= i < listing::page(names, last, before, None, after).len() ==> text::text_le(
                x,
                #[trigger] listing::page(names, last, before, None, after)[i],
            ),
        listing::page(names, last, before, None, after).len() == listing::MAX_PAGE_SIZE || (
        last matches Some(l) && listing::page(names, last, before, None, after).len() == l),
{
    let r = lemma_page_is_stretch(names, last, before, None, after);
    lemma_ascending(names, before, after);
    let asc = listing::ascending(names, before, after);
    let p = listing::page(names, last, before, None, after);
    assert(asc.contains(x));
    let k = choose|k: int| 0 <= k < asc.len() && asc[k] == x;
    if k >= r.0 {
        assert(p[r.1 - 1 - k] == x);
    }
    assert forall|i: int| 0 <= i < p.len() implies text::text_le(x, #[trigger] p[i]) by {
        assert(p[i] == asc[r.1 - 1 - i]);
        assert(text::name_order()(asc[k], asc[r.1 - 1 - i]));
    }
}

/// With `first` alone, and no more than a page holds, a page has the oldest of
/// the listed frames: a listed frame that is missing is no older than any that
/// is there, and one is missing only where `first` frames are there.
pub proof fn law_first_keeps_oldest(
    names: Seq<Seq<char>>,
    before: Option<Seq<char>>,
    first: usize,
    after: Option<Seq<char>>,
    x: Seq<char>,
)
    requires
        first <= listing::MAX_PAGE_SIZE,
        names.contains(x),
        listing::is_listed(before, after)(x),
        !listing::page(names, None, before, Some(first), after).contains(x),
    ensures
        forall|i: int|
            0 <= i < listing::page(names, None, before, Some(first), after).len()
                ==> text::text_le(
                #[trigger] listing::page(names, None, before, Some(first), after)[i],
                x,
            ),
        listing::page(names, None, before, Some(first), after).len() == first,
{
    let r = lemma_page_is_stretch(names, None, before, Some(first), after);
    lemma_ascending(names, before, after);
    let asc = listing::ascending(names, before, after);
    let p = listing::page(names, None, before, Some(first), after);
    assert(asc.contains(x));
    let k = choose|k: int| 0 <= k < asc.len() && asc[k] == x;
    if k < r.1 {
        assert(p[r.1 - 1 - k] == x);
    }
    assert forall|i: int| 0 <= i < p.len() implies text::text_le(#[trigger] p[i], x) by {
        assert(p[i] == asc[r.1 - 1 - i]);
        assert(text::name_order()(asc[r.1 - 1 - i], asc[k]));
    }
}

/// Bounds that leave nothing between them give an empty page.
pub proof fn law_empty_window(
    names: Seq<Seq<char>>,
    last: Option<usize>,
    before: Seq<char>,
    first: Option<usize>,
    after: Seq<char>,
)
    requires
        text::text_le(before, after),
    ensures
        listing::page(names, last, Some(before), first, Some(after)).len() == 0,
{
    let p = listing::page(names, last, Some(before), first, Some(after));
    if p.len() > 0 {
        law_page_in_window(names, last, Some(before), first, Some(after), 0);
        let c = listing::cursor_of(p[0]);
        text::lemma_text_transitive(after, c, before);
        if before != after {
            text::lemma_text_transitive(before, after, before);
        }
    }
}

/// Two listings agree where the listed files are the same.
proof fn lemma_same_listed(
    names: Seq<Seq<char>>,
    before: Option<Seq<char>>,
    after: Option<Seq<char>>,
    s: Seq<Seq<char>>,
)
    requires
        listing::is_ascending(s),
        s.to_multiset() == names.to_multiset().filter(listing::is_listed(before, after)),
    ensures
        listing::ascending(names, before, after) == s,
{
    lemma_ascending(names, before, after);
    text::lemma_name_order_total();
    vstd::seq_lib::lemma_sorted_unique(
        listing::ascending(names, before, after),
        s,
        text::name_order(),
    );
}

/// A stored file that is no full-size picture changes no page.
pub proof fn law_other_files_are_ignored(
    names: Seq<Seq<char>>,
    other: Seq<char>,
    last: Option<usize>,
    before: Option<Seq<char>>,
    first: Option<usize>,
    after: Option<Seq<char>>,
)
    requires
        !listing::is_frame_file(other),
    ensures
        listing::page(names.push(other), last, before, first, after) == listing::page(
            names,
            last,
            before,
            first,
            after,
        ),
{
    broadcast use vstd::seq_lib::group_to_multiset_ensures;

    let p = listing::is_listed(before, after);
    lemma_ascending(names, before, after);
    assert(names.push(other).to_multiset().filter(p) =~= names.to_multiset().filter(p));
    lemma_same_listed(names.push(other), before, after, listing::ascending(names, before, after));
}

/// A newly stored picture joins the listing, and the others stay in it.
pub proof fn law_new_picture_is_listed(
    names: Seq<Seq<char>>,
    new: Seq<char>,
    before: Option<Seq<char>>,
    after: Option<Seq<char>>,
)
    requires
        listing::is_listed(before, after)(new),
    ensures
        listing::ascending(names.push(new), before, after).to_multiset() == listing::ascending(
            names,
            before,
            after,
        ).to_multiset().insert(new),
{
    broadcast use vstd::seq_lib::group_to_multiset_ensures;

    let p = listing::is_listed(before, after);
    lemma_ascending(names, before, after);
    lemma_ascending(names.push(new), before, after);
    assert(names.push(new).to_multiset().filter(p) =~= names.to_multiset().filter(p).insert(new));
}

/// Keeping some elements of an ascending sequence keeps it ascending.
proof fn lemma_filter_ascending(s: Seq<Seq<char>>, p: spec_fn(Seq<char>) -> bool)
    requires
        listing::is_ascending(s),
    ensures
        listing::is_ascending(s.filter(p)),
    decreases s.len(),
{
    reveal(Seq::filter);
    if s.len() > 0 {
        let init = s.drop_last();
        assert forall|i: int, j: int| 0 <= i < j < init.len() implies #[trigger]
            text::name_order()(init[i], init[j]) by {
            assert(text::name_order()(s[i], s[j]));
        }
        lemma_filter_ascending(init, p);
        let kept = init.filter(p);
        assert forall|i: int| 0 <= i < kept.len() implies #[trigger] text::name_order()(
            kept[i],
            s.last(),
        ) by {
            lemma_filter_is_drawn_from(init, p, i);
            let k = choose|k: int| 0 <= k < init.len() && init[k] == kept[i];
            assert(text::name_order()(s[k], s[s.len() - 1]));
        }
        if p(s.last()) {
            assert forall|i: int, j: int| 0 <= i < j < s.filter(p).len() implies #[trigger]
                text::name_order()(s.filter(p)[i], s.filter(p)[j]) by {
                if j < kept.len() {
                    assert(text::name_order()(kept[i], kept[j]));
                } else {
                    assert(text::name_order()(kept[i], s.last()));
                }
            }
        }
    }
}

/// What a filter keeps stood in the sequence and passes the test.
pub proof fn lemma_filter_is_drawn_from<A>(s: Seq<A>, p: spec_fn(A) -> bool, i: int)
    requires
        0 <= i < s.filter(p).len(),
    ensures
        s.contains(s.filter(p)[i]),
        p(s.filter(p)[i]),
    decreases s.len(),
{
    reveal(Seq::filter);
    if s.len() > 0 {
        let init = s.drop_last();
        if i < init.filter(p).len() {
            lemma_filter_is_drawn_from(init, p, i);
            let k = choose|k: int| 0 <= k < init.len() && init[k] == init.filter(p)[i];
            assert(s[k] == s.filter(p)[i]);
        } else {
            assert(s[s.len() - 1] == s.filter(p)[i]);
        }
    }
}

/// Removing files takes them, and nothing else, out of the listing.
pub proof fn law_removed_files_leave_listing(
    names: Seq<Seq<char>>,
    kept: spec_fn(Seq<char>) -> bool,
    before: Option<Seq<char>>,
    after: Option<Seq<char>>,
)
    ensures
        listing::ascending(names.filter(kept), before, after) == listing::ascending(
            names,
            before,
            after,
        ).filter(kept),
{
    let p = listing::is_listed(before, after);
    let asc = listing::ascending(names, before, after);
    lemma_ascending(names, before, after);
    lemma_filter_ascending(asc, kept);
    lemma_filter_multiset(asc, kept);
    lemma_filter_multiset(names, kept);
    assert(names.to_multiset().filter(p).filter(kept) =~= names.to_multiset().filter(kept).filter(
        p,
    ));
    lemma_same_listed(names.filter(kept), before, after, asc.filter(kept));
}

/// For the listed files, to stand before `name` and to have a cursor before
/// that of `name` is the same.
pub open spec fn cursor_separates(
    names: Seq<Seq<char>>,
    before: Option<Seq<char>>,
    after: Option<Seq<char>>,
    name: Seq<char>,
) -> bool {
    forall|x: Seq<char>| #[trigger]
        names.contains(x) && listing::is_listed(before, after)(x) ==> (text::text_lt(x, name)
            <==> text::text_lt(listing::cursor_of(x), listing::cursor_of(name)))
}

/// Asking for the frames before the cursor of the oldest frame on a page goes
/// on where the page ended: the listing then is what the page left over, with
/// no frame repeated and none passed over.
pub proof fn law_pages_follow_on(
    names: Seq<Seq<char>>,
    last: Option<usize>,
    before: Option<Seq<char>>,
    after: Option<Seq<char>>,
)
    requires
        names.no_duplicates(),
        listing::page(names, last, before, None, after).len() > 0,
        cursor_separates(
            names,
            before,
            after,
            listing::page(names, last, before, None, after).last(),
        ),
    ensures
        listing::ascending(names, before, after) == listing::ascending(
            names,
            Some(listing::cursor_of(listing::page(names, last, before, None, after).last())),
            after,
        ) + listing::page(names, last, before, None, after).reverse(),
{
    broadcast use vstd::seq_lib::group_to_multiset_ensures;

    let page = listing::page(names, last, before, None, after);
    let oldest = page.last();
    let cursor = listing::cursor_of(oldest);
    let asc = listing::ascending(names, before, after);
    let r = lemma_page_is_stretch(names, last, before, None, after);
    lemma_ascending(names, before, after);
    lemma_ascending_has_no_duplicates(names, before, after);
    law_page_in_window(names, last, before, None, after, page.len() - 1);
    assert(oldest == asc[r.0]);
    let rest = asc.take(r.0);
    let p = listing::is_listed(before, after);
    let q = listing::is_listed(Some(cursor), after);
    assert forall|i: int, j: int| 0 <= i < j < rest.len() implies #[trigger]
        text::name_order()(rest[i], rest[j]) by {
        assert(text::name_order()(asc[i], asc[j]));
    }
    assert(rest.no_duplicates());
    rest.lemma_multiset_has_no_duplicates();
    names.lemma_multiset_has_no_duplicates();
    assert forall|x: Seq<char>|
        #![trigger rest.to_multiset().count(x)]
        rest.to_multiset().count(x) == names.to_multiset().filter(q).count(x) by {
        assert(rest.contains(x) <==> rest.to_multiset().count(x) > 0);
        assert(names.contains(x) <==> names.to_multiset().count(x) > 0);
        if rest.contains(x) {
            let k = choose|k: int| 0 <= k < rest.len() && rest[k] == x;
            assert(asc[k] == x);
            assert(asc.contains(x));
            assert(text::name_order()(asc[k], asc[r.0]));
            assert(text::text_lt(x, oldest));
            assert(q(x));
        }
        if names.contains(x) && q(x) {
            if before is Some {
                text::lemma_text_transitive(listing::cursor_of(x), cursor, before->0);
            }
            assert(p(x));
            assert(asc.contains(x));
            assert(text::text_lt(x, oldest));
            let k = choose|k: int| 0 <= k < asc.len() && asc[k] == x;
            if k >= r.0 {
                if k > r.0 {
                    assert(text::name_order()(asc[r.0], asc[k]));
                    text::lemma_text_transitive(oldest, x, oldest);
                }
                text::lemma_text_irreflexive(oldest);
            }
            assert(rest[k] == x);
        }
        if names.to_multiset().count(x) > 0 {
            assert(names.to_multiset().contains(x));
        }
        if rest.to_multiset().count(x) > 0 {
            assert(rest.to_multiset().contains(x));
        }
    }
    assert(rest.to_multiset() =~= names.to_multiset().filter(q));
    lemma_same_listed(names, Some(cursor), after, rest);
    assert(asc =~= rest + page.reverse());
}

/// Cursors of one length separate: their order is that of the file names.
pub proof fn lemma_equal_lengths_separate(
    names: Seq<Seq<char>>,
    before: Option<Seq<char>>,
    after: Option<Seq<char>>,
    name: Seq<char>,
)
    requires
        listing::is_frame_file(name),
        forall|x: Seq<char>| #[trigger]
            names.contains(x) && listing::is_listed(before, after)(x) ==> x.len() == name.len(),
    ensures
        cursor_separates(names, before, after, name),
{
    reveal_strlit(".jpg");
    assert forall|x: Seq<char>| #[trigger]
        names.contains(x) && listing::is_listed(before, after)(x) implies (text::text_lt(x, name)
        <==> text::text_lt(listing::cursor_of(x), listing::cursor_of(name))) by {
        let n = x.len() - 4;
        assert(x.skip(n) == name.skip(n));
        assert forall|k: int| n <= k < x.len() implies #[trigger] x[k] == name[k] by {
            assert(x.skip(n)[k - n] == name.skip(n)[k - n]);
        }
        if text::text_lt(x, name) {
            let i = choose|i: int| text::less_at(x, name, i);
            assert(i < n);
            assert(text::less_at(listing::cursor_of(x), listing::cursor_of(name), i));
        }
        if text::text_lt(listing::cursor_of(x), listing::cursor_of(name)) {
            let i = choose|i: int|
                text::less_at(listing::cursor_of(x), listing::cursor_of(name), i);
            assert forall|j: int| 0 <= j < i implies x[j] == name[j] by {
                assert(listing::cursor_of(x)[j] == listing::cursor_of(name)[j]);
            }
            assert(text::less_at(x, name, i));
        }
    }
}

/// What is listed are the stored files that end in `.jpg` but not in `.224.jpg` and
/// whose name without the ending stands strictly before the one bound and strictly
/// after the other, as far as these are given.
pub proof fn law_listed_by_name(
    names: Seq<Seq<char>>,
    before: Option<Seq<char>>,
    after: Option<Seq<char>>,
    name: Seq<char>,
)
    ensures
        listing::ascending(names, before, after).contains(name + ".jpg"@) <==> {
            &&& names.contains(name + ".jpg"@)
            &&& !(name.len() >= 4 && name.skip(name.len() - 4) == ".224"@)
            &&& before is Some ==> text::text_lt(name, before->0)
            &&& after is Some ==> text::text_lt(after->0, name)
        },
        forall|file: Seq<char>| #[trigger]
            listing::ascending(names, before, after).contains(file) ==> file.len() >= 4 && file
                == file.take(file.len() - 4) + ".jpg"@,
{
    reveal_strlit(".jpg");
    reveal_strlit(".224");
    reveal_strlit(".224.jpg");
    lemma_ascending(names, before, after);
    let file = name + ".jpg"@;
    assert(file.skip(file.len() - 4) =~= ".jpg"@);
    assert(listing::cursor_of(file) =~= name);
    if name.len() >= 4 && name.skip(name.len() - 4) == ".224"@ {
        assert(file.skip(file.len() - 8) =~= name.skip(name.len() - 4) + ".jpg"@);
        assert(".224"@ + ".jpg"@ =~= ".224.jpg"@);
    }
    if text::has_suffix(file, ".224.jpg"@) {
        assert(name.len() >= 4);
        assert forall|k: int| 0 <= k < 4 implies #[trigger] name.skip(name.len() - 4)[k]
            == ".224"@[k] by {
            assert(file.skip(file.len() - 8)[k] == ".224.jpg"@[k]);
        }
        assert(name.skip(name.len() - 4) =~= ".224"@);
    }
    assert forall|x: Seq<char>| #[trigger]
        listing::ascending(names, before, after).contains(x) implies x.len() >= 4 && x == x.take(
        x.len() - 4,
    ) + ".jpg"@ by {
        assert(listing::is_listed(before, after)(x));
        assert(x.skip(x.len() - 4) == ".jpg"@);
        assert(x =~= x.take(x.len() - 4) + x.skip(x.len() - 4));
    }
}

/// A page is a stretch of the listing, turned round. It ends before the `first`
/// oldest are through, and holds the newest of these: as many as `last` says, and
/// no more than 100.
pub proof fn law_page_is_newest_of_oldest(
    names: Seq<Seq<char>>,
    last: Option<usize>,
    before: Option<Seq<char>>,
    first: Option<usize>,
    after: Option<Seq<char>>,
)
    ensures
        ({
            let listed = listing::ascending(names, before, after);
            let page = listing::page(names, last, before, first, after);
            let top = if first is Some && (first->0) < listed.len() {
                first->0 as int
            } else {
                listed.len() as int
            };
            let wanted = if last is Some && (last->0) < top {
                last->0 as int
            } else {
                top
            };
            &&& page.len() == if wanted < 100 {
                wanted
            } else {
                100
            }
            &&& forall|i: int| 0 <= i < page.len() ==> #[trigger] page[i] == listed[top - 1 - i]
        }),
{
    let listed = listing::ascending(names, before, after);
    let oldest = listing::at_most(listed, first);
    let turned = oldest.reverse();
    let newest = listing::at_most(turned, last);
    assert(oldest.len() <= listed.len());
    assert forall|i: int| 0 <= i < turned.len() implies #[trigger] turned[i] == listed[oldest.len()
        - 1 - i] by {}
}

/// The listing is in the order of the names and holds each stored file as often as
/// the directory does.
pub proof fn law_listing_is_in_order(
    names: Seq<Seq<char>>,
    before: Option<Seq<char>>,
    after: Option<Seq<char>>,
)
    ensures
        forall|i: int, j: int|
            0 <= i < j < listing::ascending(names, before, after).len() ==> !text::text_lt(
                #[trigger] listing::ascending(names, before, after)[j],
                #[trigger] listing::ascending(names, before, after)[i],
            ),
        forall|file: Seq<char>|
            listing::ascending(names, before, after).contains(file)
                ==> #[trigger] listing::ascending(names, before, after).to_multiset().count(file)
                == names.to_multiset().count(file),
{
    broadcast use vstd::seq_lib::group_to_multiset_ensures;

    lemma_ascending(names, before, after);
    let asc = listing::ascending(names, before, after);
    assert forall|i: int, j: int| 0 <= i < j < asc.len() implies !text::text_lt(
        #[trigger] asc[j],
        #[trigger] asc[i],
    ) by {
        assert(text::name_order()(asc[i], asc[j]));
        text::lemma_text_irreflexive(asc[i]);
        if text::text_lt(asc[j], asc[i]) && asc[i] != asc[j] {
            text::lemma_text_transitive(asc[i], asc[j], asc[i]);
        }
    }
}

/// What is said of strings is said of their characters.
pub proof fn law_views_are_characters(names: Seq<String>, name: String)
    ensures
        listing::views(names).len() == names.len(),
        forall|i: int| 0 <= i < names.len() ==> #[trigger] listing::views(names)[i] == names[i]@,
        listing::view_of(Some(name)) == Some(name@),
        listing::view_of(None) is None,
{
}

/// Sorted names stand in their order, and are the same as before, each as often.
pub proof fn law_sort_orders_names(names: Seq<Seq<char>>)
    ensures
        names.sort_by(text::name_order()).to_multiset() == names.to_multiset(),
        names.sort_by(text::name_order()).len() == names.len(),
        forall|i: int, j: int|
            0 <= i < j < names.len() ==> !text::text_lt(
                #[trigger] names.sort_by(text::name_order())[j],
                #[trigger] names.sort_by(text::name_order())[i],
            ),
{
    broadcast use vstd::seq_lib::group_to_multiset_ensures;

    text::lemma_name_order_total();
    names.lemma_sort_by_ensures(text::name_order());
    let sorted = names.sort_by(text::name_order());
    assert(sorted.to_multiset().len() == names.to_multiset().len());
    assert forall|i: int, j: int| 0 <= i < j < names.len() implies !text::text_lt(
        #[trigger] sorted[j],
        #[trigger] sorted[i],
    ) by {
        assert(text::name_order()(sorted[i], sorted[j]));
        text::lemma_text_irreflexive(sorted[i]);
        if text::text_lt(sorted[j], sorted[i]) && sorted[i] != sorted[j] {
            text::lemma_text_transitive(sorted[i], sorted[j], sorted[i]);
        }
    }
}

} // verus!
