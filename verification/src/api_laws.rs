//! What holds of going through the frames page by page.

use crate::api;
use crate::api::{Frame, FrameEdge, Frames, LabeledEntry};
use crate::listing;
use crate::listing_laws;
use crate::store::{FrameMetadata, FrameStoreEntry};
use crate::text;
use crate::time;
use crate::time::Timestamp;
use crate::training::{LabelError, LabelFile, Labels};
use vstd::prelude::*;
use vstd::string::*;

verus! {

/// The entries are those of the pictures, as their metadata names them.
pub open spec fn are_entries_of(entries: Seq<LabeledEntry>, pictures: Seq<Seq<char>>) -> bool {
    &&& entries.len() == pictures.len()
    &&& forall|i: int|
        0 <= i < entries.len() ==> (#[trigger] entries[i]).entry.metadata.name@ + ".jpg"@
            == pictures[i]
}

/// To ask for the frames before the start cursor of a page goes on where the
/// page ended: the listing then is what the page left over, no frame is
/// repeated and none is passed over.
pub proof fn law_start_cursor_leads_back(
    names: Seq<Seq<char>>,
    last: Option<usize>,
    before: Option<Seq<char>>,
    entries: Seq<LabeledEntry>,
    page: Frames,
)
    requires
        names.no_duplicates(),
        entries.len() > 0,
        api::is_page_of(page, entries),
        are_entries_of(entries, listing::page(names, last, api::bound_of(before), None, None)),
        listing_laws::cursor_separates(
            names,
            api::bound_of(before),
            None,
            listing::page(names, last, api::bound_of(before), None, None).last(),
        ),
    ensures
        listing::view_of(page.start_cursor) is Some,
        listing::ascending(names, api::bound_of(before), None) == listing::ascending(
            names,
            api::bound_of(listing::view_of(page.start_cursor)),
            None,
        ) + listing::page(names, last, api::bound_of(before), None, None).reverse(),
{
    let bound = api::bound_of(before);
    let pictures = listing::page(names, last, bound, None, None);
    let n = entries.len() as int;
    assert(api::shows(
        page.nodes@[n - 1],
        entries[n - 1].entry.metadata,
        api::readable(entries[n - 1].labels),
    ));
    assert(entries[n - 1].entry.metadata.name@ + ".jpg"@ == pictures[n - 1]);
    listing_laws::law_page_in_window(names, last, bound, None, None, n - 1);
    assert(api::cursor_name(pictures.last()) == listing::cursor_of(pictures.last()));
    listing_laws::law_pages_follow_on(names, last, bound, None);
}

/// The same holds wherever the listed names have one length, as those of captured
/// frames do in years of four digits.
pub proof fn law_names_of_one_length_lead_back(
    names: Seq<Seq<char>>,
    last: Option<usize>,
    before: Option<Seq<char>>,
    entries: Seq<LabeledEntry>,
    page: Frames,
    length: nat,
)
    requires
        names.no_duplicates(),
        entries.len() > 0,
        api::is_page_of(page, entries),
        are_entries_of(entries, listing::page(names, last, api::bound_of(before), None, None)),
        forall|x: Seq<char>| #[trigger]
            names.contains(x) && listing::is_listed(api::bound_of(before), None)(x) ==> x.len()
                == length,
    ensures
        listing::ascending(names, api::bound_of(before), None) == listing::ascending(
            names,
            api::bound_of(listing::view_of(page.start_cursor)),
            None,
        ) + listing::page(names, last, api::bound_of(before), None, None).reverse(),
{
    let bound = api::bound_of(before);
    let pictures = listing::page(names, last, bound, None, None);
    let oldest = pictures.last();
    listing_laws::law_page_in_window(names, last, bound, None, None, pictures.len() - 1);
    assert(names.contains(oldest) && listing::is_listed(bound, None)(oldest));
    listing_laws::lemma_equal_lengths_separate(names, bound, None, oldest);
    law_start_cursor_leads_back(names, last, before, entries, page);
}

/// A page has a previous one, and cursors, exactly if it shows any frame.
pub proof fn law_empty_page_ends_the_way_back(page: Frames, entries: Seq<LabeledEntry>)
    requires
        api::is_page_of(page, entries),
    ensures
        page.has_previous_page <==> page.nodes@.len() > 0,
        page.start_cursor is Some <==> page.nodes@.len() > 0,
        page.end_cursor is Some <==> page.nodes@.len() > 0,
{
    assert(listing::view_of(page.start_cursor) is Some <==> page.start_cursor is Some);
    assert(listing::view_of(page.end_cursor) is Some <==> page.end_cursor is Some);
}

/// A cursor that does not end in `.jpg` stands for itself, and the file name of a
/// picture for the name before its ending.
pub proof fn law_cursor_stands_for_name(cursor: Seq<char>)
    ensures
        !(cursor.len() >= 4 && cursor.skip(cursor.len() - 4) == ".jpg"@) ==> api::bound_of(
            Some(cursor),
        ) == Some(cursor),
        api::bound_of(Some(cursor + ".jpg"@)) == Some(cursor),
        api::bound_of(None) is None,
{
    reveal_strlit(".jpg");
    let picture = cursor + ".jpg"@;
    assert(picture.skip(picture.len() - 4) =~= ".jpg"@);
    assert(picture.take(picture.len() - 4) =~= cursor);
}

/// To ask for the frames before a name lists exactly the stored pictures whose name
/// without `.jpg` stands before it, whether the name or its picture was asked for.
pub proof fn law_frames_before_a_name(
    names: Seq<Seq<char>>,
    asked: Seq<char>,
    name: Seq<char>,
)
    requires
        !(asked.len() >= 4 && asked.skip(asked.len() - 4) == ".jpg"@),
    ensures
        listing::ascending(names, api::bound_of(Some(asked)), None).contains(name + ".jpg"@) <==> {
            &&& names.contains(name + ".jpg"@)
            &&& !(name.len() >= 4 && name.skip(name.len() - 4) == ".224"@)
            &&& text::text_lt(name, asked)
        },
        listing::ascending(names, api::bound_of(Some(asked + ".jpg"@)), None).contains(
            name + ".jpg"@,
        ) <==> {
            &&& names.contains(name + ".jpg"@)
            &&& !(name.len() >= 4 && name.skip(name.len() - 4) == ".224"@)
            &&& text::text_lt(name, asked)
        },
        listing::ascending(names, api::bound_of(None), None).contains(name + ".jpg"@) <==> {
            &&& names.contains(name + ".jpg"@)
            &&& !(name.len() >= 4 && name.skip(name.len() - 4) == ".224"@)
        },
{
    law_cursor_stands_for_name(asked);
    listing_laws::law_listed_by_name(names, Some(asked), None, name);
    listing_laws::law_listed_by_name(names, None, None, name);
}

/// The cursor of a frame that was just stored and the picture of the same frame
/// lead to the same page.
pub proof fn law_cursor_and_picture_lead_alike(
    names: Seq<Seq<char>>,
    last: Option<usize>,
    edge: FrameEdge,
    metadata: FrameMetadata,
)
    requires
        api::shows(edge.node, metadata, None),
        edge.cursor@ == metadata.name@,
        !(metadata.name@.len() >= 4 && metadata.name@.skip(metadata.name@.len() - 4) == ".jpg"@),
    ensures
        api::bound_of(Some(edge.cursor@)) == Some(metadata.name@),
        api::bound_of(Some(edge.node.src@)) == Some(metadata.name@),
        listing::page(names, last, api::bound_of(Some(edge.cursor@)), None, None) == listing::page(
            names,
            last,
            api::bound_of(Some(edge.node.src@)),
            None,
            None,
        ),
{
    law_cursor_stands_for_name(metadata.name@);
}

/// The names of captured frames are such that their cursors stand for themselves.
pub proof fn law_captured_names_are_cursors(time: Timestamp)
    ensures
        api::bound_of(Some(time::basename(time))) == Some(time::basename(time)),
        api::bound_of(Some(time::basename(time) + ".jpg"@)) == Some(time::basename(time)),
{
    reveal_strlit(".jpg");
    let name = time::basename(time);
    time::law_basename_is_plain(time);
    law_cursor_stands_for_name(name);
    if name.len() >= 4 && name.skip(name.len() - 4) == ".jpg"@ {
        assert(name.skip(name.len() - 4)[0] == name[name.len() - 4]);
        assert(time::is_name_char(name[name.len() - 4]));
    }
}

/// A frame is shown under its name, with the picture of that name, at the time and
/// with the hash that were noted of it, and with the labels that it was given.
pub proof fn law_frame_is_shown_as_noted(
    frame: Frame,
    metadata: FrameMetadata,
    labels: Option<Labels>,
)
    requires
        api::shows(frame, metadata, labels),
    ensures
        frame.id@ == metadata.name@,
        frame.src@ == metadata.name@ + ".jpg"@,
        frame.timestamp == metadata.timestamp,
        frame.p_hash@ == metadata.p_hash@,
        frame.p_hash_distance == metadata.p_hash_distance,
        frame.labels == labels,
{
}

/// A page shows each entry in its place, under its name, with the labels that could
/// be read. It leads on to no newer frames; its start cursor is the picture of its
/// last frame, and its end cursor that of its first.
pub proof fn law_page_shows_entries(page: Frames, entries: Seq<LabeledEntry>)
    requires
        api::is_page_of(page, entries),
    ensures
        page.nodes@.len() == entries.len(),
        forall|i: int|
            0 <= i < entries.len() ==> {
                let frame = #[trigger] page.nodes@[i];
                let metadata = entries[i].entry.metadata;
                &&& frame.id@ == metadata.name@
                &&& frame.src@ == metadata.name@ + ".jpg"@
                &&& frame.timestamp == metadata.timestamp
                &&& frame.p_hash@ == metadata.p_hash@
                &&& frame.p_hash_distance == metadata.p_hash_distance
                &&& entries[i].labels matches Ok(labels) ==> frame.labels == Some(labels)
                &&& entries[i].labels is Err ==> frame.labels is None
            },
        !page.has_next_page,
        page.has_previous_page <==> entries.len() > 0,
        page.start_cursor is Some <==> entries.len() > 0,
        page.end_cursor is Some <==> entries.len() > 0,
        entries.len() > 0 ==> (page.start_cursor->0)@ == entries.last().entry.metadata.name@
            + ".jpg"@,
        entries.len() > 0 ==> (page.end_cursor->0)@ == entries[0].entry.metadata.name@ + ".jpg"@,
{
    if entries.len() > 0 {
        let n = entries.len() - 1;
        assert(api::shows(
            page.nodes@[n],
            entries[n].entry.metadata,
            api::readable(entries[n].labels),
        ));
        assert(api::shows(
            page.nodes@[0],
            entries[0].entry.metadata,
            api::readable(entries[0].labels),
        ));
        assert(listing::view_of(page.start_cursor) == Some((page.start_cursor->0)@));
        assert(listing::view_of(page.end_cursor) == Some((page.end_cursor->0)@));
    }
}

/// A frame keeps what is stored of it when it is given its labels: those in the
/// file, none where there is no file, and the reason where they cannot be told.
pub proof fn law_entry_gets_stored_labels(
    labeled: LabeledEntry,
    entry: FrameStoreEntry,
    file: LabelFile,
)
    requires
        api::is_labeled(labeled, entry, file),
    ensures
        labeled.entry == entry,
        file matches LabelFile::Parsed(labels) ==> labeled.labels is Ok && (
        labeled.labels->Ok_0).tag_sets@ == labels.tag_sets@,
        file is Missing ==> labeled.labels is Ok && (labeled.labels->Ok_0).tag_sets@.len() == 0,
        file is Unreadable ==> labeled.labels == Err::<Labels, LabelError>(LabelError::Unreadable),
        file is Unparsable ==> labeled.labels == Err::<Labels, LabelError>(LabelError::Unparsable),
{
}

} // verus!
