//! Which of the stored files make up a page of frames.

use crate::text;
use vstd::prelude::*;
use vstd::string::*;

verus! {

/// The most frames that a page holds.
pub const MAX_PAGE_SIZE: usize = 100;

/// What the characters of some strings are.
pub open spec fn views(names: Seq<String>) -> Seq<Seq<char>> {
    names.map_values(|name: String| name@)
}

/// What the characters of an optional string are.
pub open spec fn view_of(name: Option<String>) -> Option<Seq<char>> {
    match name {
        Some(n) => Some(n@),
        None => None,
    }
}

/// A full-size picture, and no preview made for inference.
pub open spec fn is_frame_file(name: Seq<char>) -> bool {
    &&& text::has_suffix(name, ".jpg"@)
    &&& !text::has_suffix(name, ".224.jpg"@)
}

/// The cursor of a picture: its file name without the extension.
pub open spec fn cursor_of(name: Seq<char>) -> Seq<char> {
    text::without_last(name, 4)
}

/// `cursor` stands strictly between the two bounds, where they are given.
pub open spec fn in_window(
    cursor: Seq<char>,
    before: Option<Seq<char>>,
    after: Option<Seq<char>>,
) -> bool {
    &&& before matches Some(b) ==> text::text_lt(cursor, b)
    &&& after matches Some(a) ==> text::text_lt(a, cursor)
}

/// The test that a file passes to be listed.
pub open spec fn is_listed(before: Option<Seq<char>>, after: Option<Seq<char>>) -> spec_fn(
    Seq<char>,
) -> bool {
    |name: Seq<char>| is_frame_file(name) && in_window(cursor_of(name), before, after)
}

/// The listed files from the oldest name to the newest.
pub open spec fn ascending(
    names: Seq<Seq<char>>,
    before: Option<Seq<char>>,
    after: Option<Seq<char>>,
) -> Seq<Seq<char>> {
    names.filter(is_listed(before, after)).sort_by(text::name_order())
}

/// The first `limit` elements, or all where there is no limit or fewer.
pub open spec fn at_most<A>(s: Seq<A>, limit: Option<usize>) -> Seq<A> {
    match limit {
        Some(n) => if n < s.len() {
            s.take(n as int)
        } else {
            s
        },
        None => s,
    }
}

/// The page: of the listed files the `first` oldest, turned round so that the
/// newest comes first, then the `last` newest of these, then no more than a
/// page holds.
pub open spec fn page(
    names: Seq<Seq<char>>,
    last: Option<usize>,
    before: Option<Seq<char>>,
    first: Option<usize>,
    after: Option<Seq<char>>,
) -> Seq<Seq<char>> {
    at_most(
        at_most(at_most(ascending(names, before, after), first).reverse(), last),
        Some(MAX_PAGE_SIZE),
    )
}

/// The names are in order, the smallest first.
pub open spec fn is_ascending(s: Seq<Seq<char>>) -> bool {
    vstd::relations::sorted_by(s, text::name_order())
}

fn reversed(v: Vec<String>) -> (r: Vec<String>)
    ensures
        views(r@) == views(v@).reverse(),
{
    let mut v = v;
    let ghost whole = v@;
    let mut r: Vec<String> = Vec::new();
    while v.len() > 0
        invariant
            v@.len() <= whole.len(),
            v@ == whole.take(v@.len() as int),
            r@ == whole.skip(v@.len() as int).reverse(),
        decreases v.len(),
    {
        let ghost n = v@.len() as int;
        match v.pop() {
            Some(name) => {
                r.push(name);
            },
            None => {},
        }
        assert(v@ =~= whole.take(n - 1));
        assert(r@ =~= whole.skip(n - 1).reverse());
    }
    assert(whole.skip(0) =~= whole);
    assert(views(r@) =~= views(whole).reverse());
    r
}

/// Takes the greater of the two last names off, again and again.
fn merge_from_the_back(a: Vec<String>, b: Vec<String>) -> (r: Vec<String>)
    requires
        is_ascending(views(a@)),
        is_ascending(views(b@)),
    ensures
        is_ascending(views(r@).reverse()),
        views(r@).to_multiset() == views(a@).to_multiset().add(views(b@).to_multiset()),
{
    let mut a = a;
    let mut b = b;
    let mut r: Vec<String> = Vec::new();
    let ghost whole = views(a@).to_multiset().add(views(b@).to_multiset());
    proof {
        broadcast use vstd::seq_lib::group_to_multiset_ensures;

        assert(views(r@) =~= Seq::<Seq<char>>::empty());
        assert(views(r@).to_multiset() =~= vstd::multiset::Multiset::empty());
        assert(whole =~= views(r@).to_multiset().add(views(a@).to_multiset()).add(
            views(b@).to_multiset(),
        ));
    }
    while a.len() > 0 || b.len() > 0
        invariant
            is_ascending(views(a@)),
            is_ascending(views(b@)),
            forall|i: int, j: int|
                0 <= i < j < r@.len() ==> text::text_le(#[trigger] r@[j]@, #[trigger] r@[i]@),
            forall|i: int, j: int|
                0 <= i < a@.len() && 0 <= j < r@.len() ==> text::text_le(
                    #[trigger] a@[i]@,
                    #[trigger] r@[j]@,
                ),
            forall|i: int, j: int|
                0 <= i < b@.len() && 0 <= j < r@.len() ==> text::text_le(
                    #[trigger] b@[i]@,
                    #[trigger] r@[j]@,
                ),
            whole == views(r@).to_multiset().add(views(a@).to_multiset()).add(
                views(b@).to_multiset(),
            ),
        decreases a.len() + b.len(),
    {
        let take_a: bool = if a.len() == 0 {
            false
        } else if b.len() == 0 {
            true
        } else {
            text::str_lt(b[b.len() - 1].as_str(), a[a.len() - 1].as_str())
        };
        let ghost va = views(a@);
        let ghost vb = views(b@);
        let ghost vr = views(r@);
        proof {
            text::lemma_name_order_total();
            lemma_last_is_greatest(va);
            lemma_last_is_greatest(vb);
            if va.len() > 0 && vb.len() > 0 {
                text::lemma_text_total(va.last(), vb.last());
                assert(text::name_order()(va.last(), vb.last()) == text::text_le(
                    va.last(),
                    vb.last(),
                ));
                assert forall|i: int| 0 <= i < va.len() && !take_a implies text::text_le(
                    #[trigger] va[i],
                    vb.last(),
                ) by {
                    assert(text::name_order()(va[i], va.last()));
                    assert(text::name_order()(va.last(), vb.last()));
                    assert(text::name_order()(va[i], vb.last()));
                }
                assert forall|i: int| 0 <= i < vb.len() && take_a implies text::text_le(
                    #[trigger] vb[i],
                    va.last(),
                ) by {
                    assert(text::name_order()(vb[i], vb.last()));
                    assert(text::name_order()(vb.last(), va.last()));
                    assert(text::name_order()(vb[i], va.last()));
                }
            }
        }
        let taken: Option<String> = if take_a {
            a.pop()
        } else {
            b.pop()
        };
        match taken {
            Some(name) => {
                r.push(name);
                proof {
                    broadcast use vstd::seq_lib::group_to_multiset_ensures;

                    assert(views(r@) =~= vr.push(name@));
                    if take_a {
                        assert(views(a@) =~= va.drop_last());
                        assert(va =~= va.drop_last().push(name@));
                    } else {
                        assert(views(b@) =~= vb.drop_last());
                        assert(vb =~= vb.drop_last().push(name@));
                    }
                    assert(whole =~= views(r@).to_multiset().add(views(a@).to_multiset()).add(
                        views(b@).to_multiset(),
                    ));
                    assert forall|i: int| 0 <= i < a@.len() implies text::text_le(
                        #[trigger] a@[i]@,
                        name@,
                    ) by {
                        assert(a@[i]@ == va[i]);
                    }
                    assert forall|i: int| 0 <= i < b@.len() implies text::text_le(
                        #[trigger] b@[i]@,
                        name@,
                    ) by {
                        assert(b@[i]@ == vb[i]);
                    }
                }
            },
            None => {},
        }
    }
    proof {
        broadcast use vstd::seq_lib::group_to_multiset_ensures;

        assert(views(a@) =~= Seq::<Seq<char>>::empty());
        assert(views(b@) =~= Seq::<Seq<char>>::empty());
        assert(whole =~= views(r@).to_multiset());
        let back = views(r@).reverse();
        assert forall|i: int, j: int| 0 <= i < j < back.len() implies #[trigger]
            text::name_order()(back[i], back[j]) by {
            assert(back[i] == r@[r@.len() - 1 - i]@);
            assert(back[j] == r@[r@.len() - 1 - j]@);
        }
    }
    r
}

/// In an ascending sequence nothing exceeds the last element.
proof fn lemma_last_is_greatest(s: Seq<Seq<char>>)
    requires
        is_ascending(s),
    ensures
        forall|i: int| 0 <= i < s.len() ==> text::text_le(#[trigger] s[i], s.last()),
        s.len() > 0 ==> is_ascending(s.drop_last()),
{
    assert forall|i: int| 0 <= i < s.len() implies text::text_le(#[trigger] s[i], s.last()) by {
        if i < s.len() - 1 {
            assert(text::name_order()(s[i], s[s.len() - 1]));
        }
    }
    if s.len() > 0 {
        assert forall|i: int, j: int| 0 <= i < j < s.drop_last().len() implies #[trigger]
            text::name_order()(s.drop_last()[i], s.drop_last()[j]) by {
            assert(text::name_order()(s[i], s[j]));
        }
    }
}

/// Sorts file names, the smallest first.
pub fn sort_names(names: Vec<String>) -> (r: Vec<String>)
    ensures
        views(r@) == views(names@).sort_by(text::name_order()),
{
    let ghost whole = views(names@);
    let r = merge_sorted(names);
    proof {
        text::lemma_name_order_total();
        whole.lemma_sort_by_ensures(text::name_order());
        vstd::seq_lib::lemma_sorted_unique(
            views(r@),
            whole.sort_by(text::name_order()),
            text::name_order(),
        );
    }
    r
}

fn merge_sorted(names: Vec<String>) -> (r: Vec<String>)
    ensures
        is_ascending(views(r@)),
        views(r@).to_multiset() == views(names@).to_multiset(),
    decreases names.len(),
{
    let mut names = names;
    if names.len() <= 1 {
        return names;
    }
    let ghost whole = views(names@);
    let middle: usize = names.len() / 2;
    let right: Vec<String> = names.split_off(middle);
    proof {
        broadcast use vstd::seq_lib::group_to_multiset_ensures;

        assert(views(names@) =~= whole.take(middle as int));
        assert(views(right@) =~= whole.skip(middle as int));
        assert(whole =~= views(names@) + views(right@));
        vstd::seq_lib::lemma_multiset_commutative(views(names@), views(right@));
    }
    let merged: Vec<String> = merge_from_the_back(merge_sorted(names), merge_sorted(right));
    proof {
        let m = views(merged@);
        lemma_reverse_multiset(m);
    }
    reversed(merged)
}

/// Turning a sequence round keeps what it holds.
proof fn lemma_reverse_multiset<A>(s: Seq<A>)
    ensures
        s.reverse().to_multiset() == s.to_multiset(),
    decreases s.len(),
{
    broadcast use vstd::seq_lib::group_to_multiset_ensures;

    if s.len() == 0 {
        assert(s.reverse() =~= s);
    } else {
        lemma_reverse_multiset(s.drop_last());
        assert(s =~= s.drop_last().push(s.last()));
        assert(s.reverse() =~= seq![s.last()] + s.drop_last().reverse());
        vstd::seq_lib::lemma_multiset_commutative(seq![s.last()], s.drop_last().reverse());
        assert(seq![s.last()] =~= Seq::<A>::empty().push(s.last()));
        assert(s.reverse().to_multiset() =~= s.to_multiset());
    }
}

/// Whether `cursor` stands strictly between the two bounds.
fn within(cursor: &str, before: &Option<String>, after: &Option<String>) -> (r: bool)
    ensures
        r == in_window(cursor@, view_of(*before), view_of(*after)),
{
    let pass_before: bool = match before {
        Some(b) => text::str_lt(cursor, b.as_str()),
        None => true,
    };
    let pass_after: bool = match after {
        Some(a) => text::str_lt(a.as_str(), cursor),
        None => true,
    };
    pass_before && pass_after
}

/// Keeps the pictures between the two bounds.
fn select_listed(names: &Vec<String>, before: &Option<String>, after: &Option<String>) -> (r: Vec<
    String,
>)
    ensures
        views(r@) == views(names@).filter(is_listed(view_of(*before), view_of(*after))),
{
    let ghost pred = is_listed(view_of(*before), view_of(*after));
    let mut kept: Vec<String> = Vec::new();
    let mut i: usize = 0;
    proof {
        reveal_strlit(".jpg");
        reveal(Seq::filter);
        assert(views(names@).take(0) =~= Seq::empty());
        assert(views(kept@) =~= Seq::empty());
    }
    while i < names.len()
        invariant
            i <= names.len(),
            ".jpg"@.len() == 4,
            pred == is_listed(view_of(*before), view_of(*after)),
            views(kept@) == views(names@).take(i as int).filter(pred),
        decreases names.len() - i,
    {
        let name: &str = names[i].as_str();
        let ghost kept_before = views(kept@);
        let listed: bool = if !text::ends_with(name, ".jpg") {
            false
        } else if text::ends_with(name, ".224.jpg") {
            false
        } else {
            let cursor: &str = name.substring_char(0, name.unicode_len() - 4);
            assert(cursor@ =~= cursor_of(name@));
            within(cursor, before, after)
        };
        if listed {
            kept.push(names[i].clone());
        }
        proof {
            let all = views(names@);
            reveal(Seq::filter);
            assert(all.take(i + 1).drop_last() =~= all.take(i as int));
            assert(all.take(i + 1).last() == name@);
            assert(listed == pred(name@));
            if listed {
                assert(views(kept@) =~= kept_before.push(name@));
            }
        }
        i += 1;
    }
    assert(views(names@).take(names@.len() as int) =~= views(names@));
    kept
}

fn limited(v: Vec<String>, limit: Option<usize>) -> (r: Vec<String>)
    ensures
        views(r@) == at_most(views(v@), limit),
{
    let mut v = v;
    let ghost whole = v@;
    match limit {
        Some(n) => {
            v.truncate(n);
            assert(views(v@) =~= at_most(views(whole), limit));
        },
        None => {},
    }
    v
}

/// Picks a page out of the names of all stored files.
pub fn select_page(
    names: &Vec<String>,
    last: Option<usize>,
    before: &Option<String>,
    first: Option<usize>,
    after: &Option<String>,
) -> (r: Vec<String>)
    ensures
        views(r@) == page(views(names@), last, view_of(*before), first, view_of(*after)),
{
    let oldest_first: Vec<String> = sort_names(select_listed(names, before, after));
    let newest_first: Vec<String> = reversed(limited(oldest_first, first));
    limited(limited(newest_first, last), Some(MAX_PAGE_SIZE))
}

} // verus!
