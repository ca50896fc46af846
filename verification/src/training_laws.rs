//! What holds of the labels of a frame, however often they are set.

use crate::files;
use crate::listing_laws;
use crate::store_laws;
use crate::text;
use crate::training;
use crate::training::{LabelFile, Labels, TagSet};
use vstd::prelude::*;

verus! {

/// `next` is what becomes of the tag sets `s` when one is set.
pub open spec fn is_set(s: Seq<TagSet>, tags: TagSet, next: Seq<TagSet>) -> bool {
    training::is_stable_sort(next, training::replaced(s, tags))
}

/// The other tag sets keep their places.
proof fn lemma_replaced(s: Seq<TagSet>, tags: TagSet, name: Seq<char>)
    ensures
        training::replaced(s, tags).filter(training::named(name)) == if name == tags.name@ {
            seq![tags]
        } else {
            s.filter(training::named(name))
        },
    decreases s.len(),
{
    let p = training::named(name);
    let others = |t: TagSet| t.name@ != tags.name@;
    let kept = s.filter(others);
    lemma_filter_others(s, tags, name);
    reveal(Seq::filter);
    assert(kept.push(tags).drop_last() =~= kept);
    if name == tags.name@ {
        assert(kept.filter(p).push(tags) =~= seq![tags]);
    }
}

proof fn lemma_filter_others(s: Seq<TagSet>, tags: TagSet, name: Seq<char>)
    ensures
        s.filter(|t: TagSet| t.name@ != tags.name@).filter(training::named(name)) == if name
            == tags.name@ {
            Seq::empty()
        } else {
            s.filter(training::named(name))
        },
    decreases s.len(),
{
    let p = training::named(name);
    let others = |t: TagSet| t.name@ != tags.name@;
    reveal(Seq::filter);
    if s.len() > 0 {
        let front = s.drop_last();
        lemma_filter_others(front, tags, name);
        if others(s.last()) {
            assert(front.filter(others).push(s.last()).drop_last() =~= front.filter(others));
        }
    }
}

/// Where a tag set was set, it is the only one of its name.
pub proof fn law_set_tags_are_there(s: Seq<TagSet>, tags: TagSet, next: Seq<TagSet>)
    requires
        is_set(s, tags, next),
    ensures
        next.filter(training::named(tags.name@)) == seq![tags],
        next.contains(tags),
{
    lemma_replaced(s, tags, tags.name@);
    let found = next.filter(training::named(tags.name@));
    assert(found[0] == tags);
    listing_laws::lemma_filter_is_drawn_from(next, training::named(tags.name@), 0);
}

/// Setting a tag set leaves those of other names as they were.
pub proof fn law_other_tags_are_kept(
    s: Seq<TagSet>,
    tags: TagSet,
    next: Seq<TagSet>,
    name: Seq<char>,
)
    requires
        is_set(s, tags, next),
        name != tags.name@,
    ensures
        next.filter(training::named(name)) == s.filter(training::named(name)),
{
    lemma_replaced(s, tags, name);
}

/// Of two tag sets of one name that are set in turn, the last counts, as if the
/// first had never been set.
pub proof fn law_last_set_counts(
    s: Seq<TagSet>,
    first: TagSet,
    middle: Seq<TagSet>,
    second: TagSet,
    last: Seq<TagSet>,
)
    requires
        first.name@ == second.name@,
        is_set(s, first, middle),
        is_set(middle, second, last),
    ensures
        is_set(s, second, last),
{
    assert forall|name: Seq<char>| #[trigger]
        last.filter(training::named(name)) == training::replaced(s, second).filter(
            training::named(name),
        ) by {
        lemma_replaced(s, first, name);
        lemma_replaced(middle, second, name);
        lemma_replaced(s, second, name);
        assert(middle.filter(training::named(name)) == training::replaced(s, first).filter(
            training::named(name),
        ));
    }
}

proof fn lemma_filter_of_last(s: Seq<TagSet>)
    requires
        s.len() > 0,
    ensures
        ({
            let p = training::named(s.last().name@);
            &&& s.filter(p).len() > 0
            &&& s.filter(p).last() == s.last()
        }),
{
    reveal(Seq::filter);
}

/// Two orders of the same tag sets, both stable, are one.
proof fn lemma_stable_sort_is_unique(a: Seq<TagSet>, b: Seq<TagSet>)
    requires
        training::is_sorted(a),
        training::is_sorted(b),
        forall|name: Seq<char>| #[trigger]
            a.filter(training::named(name)) == b.filter(training::named(name)),
    ensures
        a == b,
    decreases a.len(),
{
    if a.len() == 0 {
        if b.len() > 0 {
            let p = training::named(b.last().name@);
            lemma_filter_of_last(b);
            assert(a.filter(p) == b.filter(p));
            reveal(Seq::filter);
        }
        assert(a =~= b);
    } else {
        let p = training::named(a.last().name@);
        lemma_filter_of_last(a);
        assert(a.filter(p) == b.filter(p));
        reveal(Seq::filter);
        assert(b.len() > 0);
        let q = training::named(b.last().name@);
        lemma_filter_of_last(b);
        assert(a.filter(q) == b.filter(q));
        listing_laws::lemma_filter_is_drawn_from(b, p, 0);
        listing_laws::lemma_filter_is_drawn_from(a, q, 0);
        lemma_last_is_greatest(a, a.filter(q)[0]);
        lemma_last_is_greatest(b, b.filter(p)[0]);
        if a.last().name@ != b.last().name@ {
            text::lemma_text_transitive(a.last().name@, b.last().name@, a.last().name@);
            text::lemma_text_irreflexive(a.last().name@);
        }
        assert(a.last() == b.last());
        let fa = a.drop_last();
        let fb = b.drop_last();
        assert forall|name: Seq<char>| #[trigger]
            fa.filter(training::named(name)) == fb.filter(training::named(name)) by {
            let r = training::named(name);
            assert(a.filter(r) == b.filter(r));
            if r(a.last()) {
                assert(a.filter(r).drop_last() =~= fa.filter(r));
                assert(b.filter(r).drop_last() =~= fb.filter(r));
            }
        }
        lemma_front_is_sorted(a);
        lemma_front_is_sorted(b);
        lemma_stable_sort_is_unique(fa, fb);
        assert(a =~= fa.push(a.last()));
        assert(b =~= fb.push(b.last()));
    }
}

proof fn lemma_front_is_sorted(s: Seq<TagSet>)
    requires
        s.len() > 0,
        training::is_sorted(s),
    ensures
        training::is_sorted(s.drop_last()),
{
    let front = s.drop_last();
    assert forall|i: int, j: int| 0 <= i < j < front.len() implies text::text_le(
        (#[trigger] front[i]).name@,
        (#[trigger] front[j]).name@,
    ) by {
        assert(front[i] == s[i] && front[j] == s[j]);
    }
}

proof fn lemma_last_is_greatest(s: Seq<TagSet>, t: TagSet)
    requires
        training::is_sorted(s),
        s.contains(t),
    ensures
        text::text_le(t.name@, s.last().name@),
{
    let k = choose|k: int| 0 <= k < s.len() && s[k] == t;
    if k < s.len() - 1 {
        assert(text::text_le(s[k].name@, s[s.len() - 1].name@));
    }
}

/// What becomes of the tag sets is told by what they were and what is set.
pub proof fn law_set_is_determined(
    s: Seq<TagSet>,
    tags: TagSet,
    a: Seq<TagSet>,
    b: Seq<TagSet>,
)
    requires
        is_set(s, tags, a),
        is_set(s, tags, b),
    ensures
        a == b,
{
    assert forall|name: Seq<char>| #[trigger]
        a.filter(training::named(name)) == b.filter(training::named(name)) by {
        assert(a.filter(training::named(name)) == training::replaced(s, tags).filter(
            training::named(name),
        ));
        assert(b.filter(training::named(name)) == training::replaced(s, tags).filter(
            training::named(name),
        ));
    }
    lemma_stable_sort_is_unique(a, b);
}

/// To set the same tag set again changes nothing.
pub proof fn law_repeated_set_changes_nothing(
    s: Seq<TagSet>,
    tags: TagSet,
    once: Seq<TagSet>,
    twice: Seq<TagSet>,
)
    requires
        is_set(s, tags, once),
        is_set(once, tags, twice),
    ensures
        twice == once,
{
    law_last_set_counts(s, tags, once, tags, twice);
    law_set_is_determined(s, tags, once, twice);
}

/// Tag sets of different names can be set in either order.
pub proof fn law_sets_commute(
    s: Seq<TagSet>,
    x: TagSet,
    y: TagSet,
    with_x: Seq<TagSet>,
    with_y: Seq<TagSet>,
    x_then_y: Seq<TagSet>,
    y_then_x: Seq<TagSet>,
)
    requires
        x.name@ != y.name@,
        is_set(s, x, with_x),
        is_set(with_x, y, x_then_y),
        is_set(s, y, with_y),
        is_set(with_y, x, y_then_x),
    ensures
        x_then_y == y_then_x,
{
    assert forall|name: Seq<char>| #[trigger]
        x_then_y.filter(training::named(name)) == y_then_x.filter(training::named(name)) by {
        let p = training::named(name);
        lemma_replaced(s, x, name);
        lemma_replaced(s, y, name);
        lemma_replaced(with_x, y, name);
        lemma_replaced(with_y, x, name);
        assert(with_x.filter(p) == training::replaced(s, x).filter(p));
        assert(with_y.filter(p) == training::replaced(s, y).filter(p));
        assert(x_then_y.filter(p) == training::replaced(with_x, y).filter(p));
        assert(y_then_x.filter(p) == training::replaced(with_y, x).filter(p));
    }
    lemma_stable_sort_is_unique(x_then_y, y_then_x);
}

/// Each name occurs once, and the names are in order.
pub open spec fn has_ordered_names(s: Seq<TagSet>) -> bool {
    forall|i: int, j: int|
        0 <= i < j < s.len() ==> text::text_lt((#[trigger] s[i]).name@, (#[trigger] s[j]).name@)
}

proof fn lemma_two_of_a_name(s: Seq<TagSet>, i: int, j: int)
    requires
        0 <= i < j < s.len(),
        s[i].name@ == s[j].name@,
    ensures
        s.filter(training::named(s[i].name@)).len() >= 2,
    decreases s.len(),
{
    let p = training::named(s[i].name@);
    let front = s.drop_last();
    reveal(Seq::filter);
    if j < front.len() {
        lemma_two_of_a_name(front, i, j);
    } else {
        front.lemma_filter_contains(p, i);
        assert(front[i] == s[i]);
        assert(front.filter(p).contains(front[i]));
    }
}

proof fn lemma_one_of_a_name(s: Seq<TagSet>, name: Seq<char>)
    requires
        has_ordered_names(s),
    ensures
        s.filter(training::named(name)).len() <= 1,
    decreases s.len(),
{
    let p = training::named(name);
    reveal(Seq::filter);
    if s.len() > 0 {
        let front = s.drop_last();
        assert forall|i: int, j: int| 0 <= i < j < front.len() implies text::text_lt(
            (#[trigger] front[i]).name@,
            (#[trigger] front[j]).name@,
        ) by {
            assert(front[i] == s[i] && front[j] == s[j]);
        }
        lemma_one_of_a_name(front, name);
        if p(s.last()) && front.filter(p).len() > 0 {
            listing_laws::lemma_filter_is_drawn_from(front, p, 0);
            let k = choose|k: int| 0 <= k < front.len() && front[k] == front.filter(p)[0];
            assert(text::text_lt(s[k].name@, s[s.len() - 1].name@));
            text::lemma_text_irreflexive(name);
        }
    }
}

/// Labels that began without tag sets never hold two of one name, and hold them
/// in the order of the names: setting a tag set keeps that.
pub proof fn law_names_stay_ordered(s: Seq<TagSet>, tags: TagSet, next: Seq<TagSet>)
    requires
        has_ordered_names(s),
        is_set(s, tags, next),
    ensures
        has_ordered_names(next),
        has_ordered_names(Seq::empty()),
{
    assert forall|i: int, j: int| 0 <= i < j < next.len() implies text::text_lt(
        (#[trigger] next[i]).name@,
        (#[trigger] next[j]).name@,
    ) by {
        assert(text::text_le(next[i].name@, next[j].name@));
        if next[i].name@ == next[j].name@ {
            let name = next[i].name@;
            lemma_two_of_a_name(next, i, j);
            lemma_replaced(s, tags, name);
            lemma_one_of_a_name(s, name);
            assert(next.filter(training::named(name)) == training::replaced(s, tags).filter(
                training::named(name),
            ));
        }
    }
}

/// The labels of different frames stand in different files.
pub proof fn law_label_files_tell_frames_apart(id: Seq<char>, other: Seq<char>)
    requires
        files::is_undotted(id),
        files::is_undotted(other),
        id != other,
    ensures
        files::names_file(id),
        files::names_file(other),
        training::label_file(id) != training::label_file(other),
{
    files::lemma_undotted_name(id, "labels.json"@);
    files::lemma_undotted_name(other, "labels.json"@);
    if training::label_file(id) == training::label_file(other) {
        store_laws::law_files_tell_frames_apart(id, other, "labels.json"@, "labels.json"@);
    }
}

/// Setting or removing the labels of a frame leaves those of every other frame as
/// they were. `directory` holds the labels of each file.
pub proof fn law_other_frames_keep_their_labels(
    directory: Map<Seq<char>, Seq<TagSet>>,
    id: Seq<char>,
    written: Seq<TagSet>,
    other: Seq<char>,
)
    requires
        files::is_undotted(id),
        files::is_undotted(other),
        id != other,
    ensures
        ({
            let file = training::label_file(id);
            let kept = training::label_file(other);
            let set = directory.insert(file, written);
            let removed = directory.remove(file);
            &&& set.dom().contains(file) && set[file] == written
            &&& !removed.dom().contains(file)
            &&& set.dom().contains(kept) <==> directory.dom().contains(kept)
            &&& removed.dom().contains(kept) <==> directory.dom().contains(kept)
            &&& directory.dom().contains(kept) ==> set[kept] == directory[kept] && removed[kept]
                == directory[kept]
        }),
{
    law_label_files_tell_frames_apart(id, other);
}

/// Labels that were written are read back as they are, and a frame whose labels
/// were removed has none.
pub proof fn law_stored_labels_are_read(labels: Labels)
    ensures
        training::stored_tags(LabelFile::Parsed(labels)) == Ok::<
            Seq<TagSet>,
            training::LabelError,
        >(labels.tag_sets@),
        training::stored_tags(LabelFile::Missing) == Ok::<Seq<TagSet>, training::LabelError>(
            Seq::empty(),
        ),
{
}

/// What a file says of the labels: those in it, none where it is missing, and why they
/// cannot be told where it cannot be read or does not hold labels.
pub proof fn law_file_tells_labels(file: LabelFile)
    ensures
        file is Missing ==> training::stored_tags(file) is Ok && training::stored_tags(
            file,
        )->Ok_0.len() == 0,
        file matches LabelFile::Parsed(labels) ==> training::stored_tags(file) is Ok
            && training::stored_tags(file)->Ok_0 == labels.tag_sets@,
        file is Unreadable ==> training::stored_tags(file) is Err && training::stored_tags(
            file,
        )->Err_0 == training::LabelError::Unreadable,
        file is Unparsable ==> training::stored_tags(file) is Err && training::stored_tags(
            file,
        )->Err_0 == training::LabelError::Unparsable,
{
}

proof fn lemma_named(name: Seq<char>)
    ensures
        training::named(name) == (|t: TagSet| t.name@ == name),
{
    assert(training::named(name) =~= (|t: TagSet| t.name@ == name));
}

/// Sorted tag sets stand in the order of their names; of each name there are the same
/// as before, in the order that they had.
pub proof fn law_sort_orders_names(sorted: Seq<TagSet>, s: Seq<TagSet>, name: Seq<char>)
    requires
        training::is_stable_sort(sorted, s),
    ensures
        forall|i: int, j: int|
            0 <= i < j < sorted.len() ==> !text::text_lt(
                (#[trigger] sorted[j]).name@,
                (#[trigger] sorted[i]).name@,
            ),
        sorted.filter(|t: TagSet| t.name@ == name) == s.filter(|t: TagSet| t.name@ == name),
        sorted.to_multiset() == s.to_multiset(),
{
    lemma_named(name);
    assert(sorted.filter(training::named(name)) == s.filter(training::named(name)));
    assert forall|i: int, j: int| 0 <= i < j < sorted.len() implies !text::text_lt(
        (#[trigger] sorted[j]).name@,
        (#[trigger] sorted[i]).name@,
    ) by {
        let a = sorted[i].name@;
        let b = sorted[j].name@;
        assert(text::text_le(a, b));
        text::lemma_text_irreflexive(a);
        if text::text_lt(b, a) && a != b {
            text::lemma_text_transitive(a, b, a);
        }
    }
    assert forall|t: TagSet| #[trigger] sorted.to_multiset().count(t) == s.to_multiset().count(
        t,
    ) by {
        let p = training::named(t.name@);
        assert(sorted.filter(p) == s.filter(p));
        lemma_count_among_named(sorted, t);
        lemma_count_among_named(s, t);
    }
    assert(sorted.to_multiset() =~= s.to_multiset());
}

/// A tag set occurs as often as among those of its name.
proof fn lemma_count_among_named(s: Seq<TagSet>, t: TagSet)
    ensures
        s.to_multiset().count(t) == s.filter(training::named(t.name@)).to_multiset().count(t),
    decreases s.len(),
{
    broadcast use vstd::seq_lib::group_to_multiset_ensures;

    let p = training::named(t.name@);
    reveal(Seq::filter);
    if s.len() == 0 {
        assert(s.filter(p) =~= s);
    } else {
        let front = s.drop_last();
        lemma_count_among_named(front, t);
        assert(s =~= front.push(s.last()));
        assert(s.to_multiset() =~= front.to_multiset().insert(s.last()));
        if p(s.last()) {
            assert(s.filter(p) =~= front.filter(p).push(s.last()));
            assert(s.filter(p).to_multiset() =~= front.filter(p).to_multiset().insert(s.last()));
        } else {
            assert(s.filter(p) =~= front.filter(p));
        }
    }
}

/// What setting a tag set comes to, name by name: of its own name it alone is there,
/// with just the tags that were given, and of every other name all that was there, in
/// the order it had; and all stand in the order of the names.
pub proof fn law_set_tells_each_name(
    s: Seq<TagSet>,
    tags: TagSet,
    next: Seq<TagSet>,
    name: Seq<char>,
)
    requires
        is_set(s, tags, next),
    ensures
        next.filter(|t: TagSet| t.name@ == name) == if name == tags.name@ {
            seq![tags]
        } else {
            s.filter(|t: TagSet| t.name@ == name)
        },
        forall|i: int, j: int|
            0 <= i < j < next.len() ==> !text::text_lt(
                (#[trigger] next[j]).name@,
                (#[trigger] next[i]).name@,
            ),
{
    lemma_named(name);
    lemma_replaced(s, tags, name);
    law_sort_orders_names(next, training::replaced(s, tags), name);
}

} // verus!
