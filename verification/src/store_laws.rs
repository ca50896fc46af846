//! What holds of the stored frames.

use crate::camera::Frame;
use crate::files;
use crate::listing;
use crate::listing_laws;
use crate::pipeline;
use crate::store;
use crate::store::{
    FileContent, FileRead, FileWrite, FrameMetadata, FrameRead, FrameStoreEntry,
};
use crate::text;
use crate::time;
use crate::time::Timestamp;
use crate::training;
use crate::writing;
use vstd::prelude::*;
use vstd::string::*;

verus! {

/// Wherever the writing of a frame breaks off, a picture that is there has its
/// metadata beside it.
pub proof fn law_picture_has_metadata(name: Seq<char>, inferred: bool, n: int)
    requires
        0 <= n <= store::capture_files(name, inferred).len(),
        store::capture_files(name, inferred).take(n).contains(
            (store::with_extension(name, "jpg"@), FileContent::Picture),
        ),
    ensures
        store::capture_files(name, inferred).take(n).contains(
            (store::with_extension(name, "json"@), FileContent::Metadata),
        ),
{
    let written = store::capture_files(name, inferred).take(n);
    let picture = (store::with_extension(name, "jpg"@), FileContent::Picture);
    let k = choose|k: int| 0 <= k < written.len() && written[k] == picture;
    assert(written[0] == store::capture_files(name, inferred)[0]);
}

/// A frame that could be stored and read again is what it was.
pub proof fn law_entry_round_trip(entry: FrameStoreEntry)
    ensures
        store::entry_of(
            FrameRead {
                metadata: FileRead::Parsed(entry.metadata),
                inference: match entry.inference {
                    Some(results) => FileRead::Parsed(results),
                    None => FileRead::Unreadable,
                },
            },
        ) == Some(entry),
{
}

proof fn lemma_all_collected(reads: Seq<FrameRead>, n: int)
    requires
        0 <= n <= reads.len(),
        forall|i: int| 0 <= i < reads.len() ==> (#[trigger] reads[i]).metadata is Parsed,
    ensures
        store::collected(reads.take(n)).len() == n,
        forall|i: int|
            0 <= i < n ==> Some(#[trigger] store::collected(reads.take(n))[i]) == store::entry_of(
                reads[i],
            ),
    decreases n,
{
    let f = |read: FrameRead| store::entry_of(read);
    if n > 0 {
        lemma_all_collected(reads, n - 1);
        reads.lemma_filter_map_take_succ(f, n - 1);
        assert(reads[n - 1].metadata is Parsed);
    } else {
        assert(reads.take(0) =~= Seq::empty());
        assert(Seq::<FrameRead>::empty().filter_map(f) =~= Seq::empty());
    }
}

/// Where the metadata of every listed frame can be read, every one of them is
/// there, in the order of the listing.
pub proof fn law_readable_frames_are_all_there(reads: Seq<FrameRead>)
    requires
        forall|i: int| 0 <= i < reads.len() ==> (#[trigger] reads[i]).metadata is Parsed,
    ensures
        store::collected(reads).len() == reads.len(),
        forall|i: int|
            0 <= i < reads.len() ==> Some(#[trigger] store::collected(reads)[i])
                == store::entry_of(reads[i]),
{
    lemma_all_collected(reads, reads.len() as int);
    assert(reads.take(reads.len() as int) =~= reads);
}

/// The listing looks for the metadata and for what the models said in the files
/// to which they are written, and shows the name of the frame as its cursor.
pub proof fn law_listing_reads_what_was_written(name: Seq<char>)
    requires
        files::is_undotted(name),
    ensures
        ({
            let picture = store::with_extension(name, "jpg"@);
            &&& files::names_file(picture)
            &&& store::metadata_file(picture) == store::with_extension(name, "json"@)
            &&& store::inference_file(picture) == store::with_extension(name, "inference.json"@)
            &&& listing::cursor_of(picture) == name
        }),
{
    reveal_strlit("jpg");
    reveal_strlit("json");
    reveal_strlit(".");
    files::lemma_extension_replaced(name, "jpg"@, "json"@);
    files::lemma_extension_replaced(name, "json"@, "inference.json"@);
    assert(listing::cursor_of(store::with_extension(name, "jpg"@)) =~= name);
}

/// Of the files of a frame only the picture is listed.
pub proof fn law_only_pictures_are_listed(name: Seq<char>)
    requires
        files::is_undotted(name),
    ensures
        listing::is_frame_file(store::with_extension(name, "jpg"@)),
        !listing::is_frame_file(store::with_extension(name, "json"@)),
        !listing::is_frame_file(store::with_extension(name, "224.jpg"@)),
        !listing::is_frame_file(store::with_extension(name, "inference.json"@)),
        !listing::is_frame_file(store::with_extension(name, "labels.json"@)),
{
    reveal_strlit("jpg");
    reveal_strlit("json");
    reveal_strlit("224.jpg");
    reveal_strlit("inference.json");
    reveal_strlit("labels.json");
    reveal_strlit(".");
    reveal_strlit(".jpg");
    reveal_strlit(".224.jpg");
    let picture = store::with_extension(name, "jpg"@);
    assert(picture.skip(picture.len() - 4) =~= ".jpg"@);
    if text::has_suffix(picture, ".224.jpg"@) {
        let k = picture.len() - 5;
        assert(picture.skip(picture.len() - 8)[3] == picture[k]);
        assert(picture[k] == '4');
        assert(picture.skip(picture.len() - 8)[0] == picture[picture.len() - 8]);
        assert(picture[picture.len() - 8] == name[picture.len() - 8]);
    }
    let preview = store::with_extension(name, "224.jpg"@);
    assert(preview.skip(preview.len() - 8) =~= ".224.jpg"@);
    let metadata = store::with_extension(name, "json"@);
    assert(metadata.last() == 'n');
    let inference = store::with_extension(name, "inference.json"@);
    assert(inference.last() == 'n');
    let labels = store::with_extension(name, "labels.json"@);
    assert(labels.last() == 'n');
    assert forall|s: Seq<char>| text::has_suffix(s, ".jpg"@) implies s.last() == 'g' by {
        assert(s.skip(s.len() - 4)[3] == s[s.len() - 1]);
    }
}

/// The files of different frames have different names, and so have the different
/// files of one frame.
pub proof fn law_files_tell_frames_apart(
    a: Seq<char>,
    b: Seq<char>,
    extension_a: Seq<char>,
    extension_b: Seq<char>,
)
    requires
        files::is_undotted(a),
        files::is_undotted(b),
        store::with_extension(a, extension_a) == store::with_extension(b, extension_b),
    ensures
        a == b,
        extension_a == extension_b,
{
    reveal_strlit(".");
    let whole = store::with_extension(a, extension_a);
    assert(whole[a.len() as int] == '.' && whole[b.len() as int] == '.');
    if a.len() < b.len() {
        assert(whole[a.len() as int] == b[a.len() as int]);
    } else if b.len() < a.len() {
        assert(whole[b.len() as int] == a[b.len() as int]);
    }
    assert(a =~= whole.take(a.len() as int));
    assert(b =~= whole.take(b.len() as int));
    assert(extension_a =~= whole.skip(a.len() + 1int));
    assert(extension_b =~= whole.skip(b.len() + 1int));
}

/// Storing a frame overwrites no file of another frame, and no labels.
pub proof fn law_capture_overwrites_nothing(
    name: Seq<char>,
    inferred: bool,
    i: int,
    other: Seq<char>,
    extension: Seq<char>,
)
    requires
        files::is_undotted(name),
        files::is_undotted(other),
        0 <= i < store::capture_files(name, inferred).len(),
        name != other || extension == "labels.json"@,
    ensures
        store::capture_files(name, inferred)[i].0 != store::with_extension(other, extension),
        training::label_file(other) == store::with_extension(other, "labels.json"@),
{
    reveal_strlit("json");
    reveal_strlit("jpg");
    reveal_strlit("224.jpg");
    reveal_strlit("inference.json");
    reveal_strlit("labels.json");
    files::lemma_undotted_name(other, "labels.json"@);
    let written = store::capture_files(name, inferred)[i].0;
    let used = seq!["json"@, "jpg"@, "224.jpg"@, "inference.json"@][i];
    assert(written == store::with_extension(name, used));
    if written == store::with_extension(other, extension) {
        law_files_tell_frames_apart(name, other, used, extension);
        assert(used.len() == extension.len() && used[0] == extension[0]);
    }
}

/// The names of some files.
pub open spec fn file_names(written: Seq<(Seq<char>, FileContent)>) -> Seq<Seq<char>> {
    written.map_values(|w: (Seq<char>, FileContent)| w.0)
}

/// A frame whose files were all written joins the listings that its name falls
/// into, once, and all that was listed before stays listed.
pub proof fn law_captured_frame_is_listed(
    names: Seq<Seq<char>>,
    name: Seq<char>,
    inferred: bool,
    before: Option<Seq<char>>,
    after: Option<Seq<char>>,
)
    requires
        files::is_undotted(name),
        listing::in_window(name, before, after),
    ensures
        listing::ascending(
            names + file_names(store::capture_files(name, inferred)),
            before,
            after,
        ).to_multiset() == listing::ascending(names, before, after).to_multiset().insert(
            store::with_extension(name, "jpg"@),
        ),
{
    broadcast use vstd::seq_lib::group_to_multiset_ensures;

    law_only_pictures_are_listed(name);
    law_listing_reads_what_was_written(name);
    let json = store::with_extension(name, "json"@);
    let jpg = store::with_extension(name, "jpg"@);
    let preview = store::with_extension(name, "224.jpg"@);
    let inference = store::with_extension(name, "inference.json"@);
    let s1 = names.push(json);
    let s2 = s1.push(jpg);
    let s3 = s2.push(preview);
    let s4 = s3.push(inference);
    let p = listing::is_listed(before, after);
    if inferred {
        assert(names + file_names(store::capture_files(name, inferred)) =~= s4);
    } else {
        assert(names + file_names(store::capture_files(name, inferred)) =~= s3);
    }
    listing_laws::lemma_ascending(names, before, after);
    listing_laws::lemma_ascending(s1, before, after);
    listing_laws::lemma_ascending(s2, before, after);
    listing_laws::lemma_ascending(s3, before, after);
    listing_laws::lemma_ascending(s4, before, after);
    assert(s1.to_multiset().filter(p) =~= names.to_multiset().filter(p));
    assert(s2.to_multiset().filter(p) =~= s1.to_multiset().filter(p).insert(jpg));
    assert(s3.to_multiset().filter(p) =~= s2.to_multiset().filter(p));
    assert(s4.to_multiset().filter(p) =~= s3.to_multiset().filter(p));
}

/// Filters that agree on what is there keep the same.
proof fn lemma_filters_agree<A>(s: Seq<A>, p: spec_fn(A) -> bool, q: spec_fn(A) -> bool)
    requires
        forall|i: int| 0 <= i < s.len() ==> p(#[trigger] s[i]) == q(s[i]),
    ensures
        s.filter(p) == s.filter(q),
    decreases s.len(),
{
    reveal(Seq::filter);
    if s.len() > 0 {
        let front = s.drop_last();
        assert forall|i: int| 0 <= i < front.len() implies p(#[trigger] front[i]) == q(
            front[i],
        ) by {
            assert(front[i] == s[i]);
        }
        lemma_filters_agree(front, p, q);
        assert(p(s[s.len() - 1]) == q(s[s.len() - 1]));
    }
}

/// A deleted frame, and no other, leaves every listing.
pub proof fn law_deleted_frame_leaves_listing(
    names: Seq<Seq<char>>,
    name: Seq<char>,
    before: Option<Seq<char>>,
    after: Option<Seq<char>>,
)
    requires
        files::is_undotted(name),
    ensures
        listing::ascending(
            names.filter(|n: Seq<char>| !store::deleted_files(name).contains(n)),
            before,
            after,
        ) == listing::ascending(names, before, after).filter(
            |n: Seq<char>| n != store::with_extension(name, "jpg"@),
        ),
{
    law_only_pictures_are_listed(name);
    law_listing_reads_what_was_written(name);
    files::lemma_undotted_name(name, "jpg"@);
    let jpg = store::with_extension(name, "jpg"@);
    let deleted = store::deleted_files(name);
    let kept = |n: Seq<char>| !deleted.contains(n);
    let no_jpg = |n: Seq<char>| n != jpg;
    let asc = listing::ascending(names, before, after);
    listing_laws::law_removed_files_leave_listing(names, kept, before, after);
    listing_laws::lemma_ascending(names, before, after);
    assert forall|i: int| 0 <= i < asc.len() implies kept(#[trigger] asc[i]) == no_jpg(asc[i]) by {
        assert(asc.contains(asc[i]));
        assert(listing::is_frame_file(asc[i]));
        assert(deleted[0] == jpg);
        if deleted.contains(asc[i]) {
            let k = choose|k: int| 0 <= k < deleted.len() && deleted[k] == asc[i];
            assert(k == 0 || k == 1 || k == 2 || k == 3);
        }
    }
    lemma_filters_agree(asc, kept, no_jpg);
}

/// Of the files of a frame, the picture and the metadata go with it, and no other
/// file does, of this or of another frame.
pub proof fn law_delete_takes_picture_and_metadata(
    name: Seq<char>,
    other: Seq<char>,
    extension: Seq<char>,
)
    requires
        files::is_undotted(name),
        files::is_undotted(other),
    ensures
        store::deleted_files(name).contains(store::with_extension(other, extension)) <==> name
            == other && (extension == "jpg"@ || extension == "json"@),
{
    law_listing_reads_what_was_written(name);
    files::lemma_undotted_name(name, "jpg"@);
    let deleted = store::deleted_files(name);
    let file = store::with_extension(other, extension);
    assert(deleted[0] == store::with_extension(name, "jpg"@));
    assert(deleted[1] == store::with_extension(name, "json"@));
    if deleted.contains(file) {
        let k = choose|k: int| 0 <= k < deleted.len() && deleted[k] == file;
        if k == 0 {
            law_files_tell_frames_apart(name, other, "jpg"@, extension);
        } else {
            law_files_tell_frames_apart(name, other, "json"@, extension);
        }
    }
}

/// Storing a frame leaves the directory as it was but for its files: the metadata
/// in the one, the picture and the small picture byte by byte, and what the
/// models said, if they were asked.
pub proof fn law_capture_fills_directory(
    directory: Map<Seq<char>, writing::Held<FrameMetadata>>,
    frame: Frame,
    entry: FrameStoreEntry,
    name: Seq<char>,
)
    requires
        files::is_undotted(name),
    ensures
        ({
            let written = store::capture_files(name, entry.inference is Some);
            let after = writing::directory_after(
                directory,
                written,
                frame,
                entry.metadata,
                entry.inference,
            );
            let json = store::with_extension(name, "json"@);
            let jpg = store::with_extension(name, "jpg"@);
            let preview = store::with_extension(name, "224.jpg"@);
            let inference = store::with_extension(name, "inference.json"@);
            &&& after.dom().contains(json) && after[json] == writing::Held::Metadata(entry.metadata)
            &&& after.dom().contains(jpg) && after[jpg] == writing::Held::<FrameMetadata>::Bytes(
                frame.jpeg@,
            )
            &&& after.dom().contains(preview) && after[preview] == writing::Held::<
                FrameMetadata,
            >::Bytes(frame.inference_jpeg@)
            &&& entry.inference is Some ==> after.dom().contains(inference) && after[inference]
                == writing::Held::<FrameMetadata>::Inference(entry.inference)
            &&& forall|other: Seq<char>|
                !file_names(written).contains(other) ==> {
                    &&& #[trigger] after.dom().contains(other) <==> directory.dom().contains(other)
                    &&& after[other] == directory[other]
                }
        }),
{
    reveal_strlit("json");
    reveal_strlit("jpg");
    reveal_strlit("224.jpg");
    reveal_strlit("inference.json");
    let written = store::capture_files(name, entry.inference is Some);
    let extensions = seq!["json"@, "jpg"@, "224.jpg"@, "inference.json"@];
    assert forall|i: int, j: int| 0 <= i < j < 4 implies store::with_extension(
        name,
        #[trigger] extensions[i],
    ) != store::with_extension(name, #[trigger] extensions[j]) by {
        if store::with_extension(name, extensions[i]) == store::with_extension(
            name,
            extensions[j],
        ) {
            law_files_tell_frames_apart(name, name, extensions[i], extensions[j]);
            assert(extensions[i].len() == extensions[j].len() && extensions[i][0]
                == extensions[j][0]);
        }
    }
    assert(extensions[0] == "json"@ && extensions[1] == "jpg"@ && extensions[2] == "224.jpg"@
        && extensions[3] == "inference.json"@);
    let first = store::capture_files(name, false);
    assert(first.drop_last().drop_last().drop_last() =~= Seq::empty());
    if entry.inference is Some {
        assert(written.drop_last() =~= first);
    }
    reveal_with_fuel(writing::directory_after, 5);
    assert forall|i: int| 0 <= i < written.len() implies file_names(written).contains(
        (#[trigger] written[i]).0,
    ) by {
        assert(file_names(written)[i] == written[i].0);
    }
    assert(first[0] == written[0] && first[1] == written[1] && first[2] == written[2]);
}

/// The bare way to store a frame leaves the directory as it was but for the
/// picture, byte by byte, and the metadata.
pub proof fn law_bare_capture_fills_directory(
    directory: Map<Seq<char>, writing::Held<pipeline::FrameMetadata>>,
    frame: Frame,
    metadata: pipeline::FrameMetadata,
    name: Seq<char>,
)
    requires
        files::is_undotted(name),
    ensures
        ({
            let written = pipeline::capture_files(name);
            let after = writing::directory_after(directory, written, frame, metadata, None);
            let jpg = store::with_extension(name, "jpg"@);
            let json = store::with_extension(name, "json"@);
            &&& after.dom().contains(jpg) && after[jpg] == writing::Held::<
                pipeline::FrameMetadata,
            >::Bytes(frame.jpeg@)
            &&& after.dom().contains(json) && after[json] == writing::Held::Metadata(metadata)
            &&& forall|other: Seq<char>|
                other != jpg && other != json ==> {
                    &&& #[trigger] after.dom().contains(other) <==> directory.dom().contains(other)
                    &&& after[other] == directory[other]
                }
        }),
{
    reveal_strlit("json");
    reveal_strlit("jpg");
    let written = pipeline::capture_files(name);
    if store::with_extension(name, "jpg"@) == store::with_extension(name, "json"@) {
        law_files_tell_frames_apart(name, name, "jpg"@, "json"@);
    }
    assert(written.drop_last().drop_last() =~= Seq::empty());
    reveal_with_fuel(writing::directory_after, 3);
}

/// The earlier of two instants, to the millisecond.
pub open spec fn is_earlier(a: Timestamp, b: Timestamp) -> bool {
    a.secs < b.secs || (a.secs == b.secs && a.sub_millis() < b.sub_millis())
}

/// On a page the newer of two captured frames comes first, where both were
/// named by clocks with one offset, in years of four digits.
pub proof fn law_newer_frames_come_first(
    names: Seq<Seq<char>>,
    last: Option<usize>,
    before: Option<Seq<char>>,
    first: Option<usize>,
    after: Option<Seq<char>>,
    i: int,
    j: int,
    a: Timestamp,
    b: Timestamp,
)
    requires
        a.is_valid() && b.is_valid(),
        a.utc_offset == b.utc_offset,
        time::has_common_year(a) && time::has_common_year(b),
        time::shows_whole_minutes(a) && time::shows_whole_minutes(b),
        0 <= i < listing::page(names, last, before, first, after).len(),
        0 <= j < listing::page(names, last, before, first, after).len(),
        listing::page(names, last, before, first, after)[i] == store::with_extension(
            time::basename(a),
            "jpg"@,
        ),
        listing::page(names, last, before, first, after)[j] == store::with_extension(
            time::basename(b),
            "jpg"@,
        ),
        is_earlier(a, b),
    ensures
        j < i,
{
    let page = listing::page(names, last, before, first, after);
    time::law_names_sort_by_time(a, b);
    time::law_basename_length(a);
    time::law_basename_length(b);
    time::lemma_first_part_decides(
        time::basename(a),
        time::basename(b),
        "."@ + "jpg"@,
        "."@ + "jpg"@,
    );
    assert(page[i] =~= time::basename(a) + ("."@ + "jpg"@));
    assert(page[j] =~= time::basename(b) + ("."@ + "jpg"@));
    text::lemma_text_irreflexive(page[i]);
    if i < j {
        listing_laws::law_newest_first(names, last, before, first, after, i, j);
        text::lemma_text_transitive(page[i], page[j], page[i]);
    }
}

/// The files of a frame: its metadata first, then its picture and the small one, and
/// what the models said only if they were asked. The bare way writes the picture and
/// then the metadata.
pub proof fn law_files_of_a_frame(name: Seq<char>)
    ensures
        store::capture_files(name, true) == seq![
            (name + ".json"@, FileContent::Metadata),
            (name + ".jpg"@, FileContent::Picture),
            (name + ".224.jpg"@, FileContent::Preview),
            (name + ".inference.json"@, FileContent::Inference),
        ],
        store::capture_files(name, false) == seq![
            (name + ".json"@, FileContent::Metadata),
            (name + ".jpg"@, FileContent::Picture),
            (name + ".224.jpg"@, FileContent::Preview),
        ],
        pipeline::capture_files(name) == seq![
            (name + ".jpg"@, FileContent::Picture),
            (name + ".json"@, FileContent::Metadata),
        ],
{
    lemma_extensions_with_dots();
    assert(name + "."@ + "json"@ =~= name + ".json"@);
    assert(name + "."@ + "jpg"@ =~= name + ".jpg"@);
    assert(name + "."@ + "224.jpg"@ =~= name + ".224.jpg"@);
    assert(name + "."@ + "inference.json"@ =~= name + ".inference.json"@);
}

proof fn lemma_extensions_with_dots()
    ensures
        "."@ + "json"@ == ".json"@,
        "."@ + "jpg"@ == ".jpg"@,
        "."@ + "224.jpg"@ == ".224.jpg"@,
        "."@ + "inference.json"@ == ".inference.json"@,
        "."@ + "labels.json"@ == ".labels.json"@,
        !"jpg"@.contains('.') && !"json"@.contains('.'),
        !"jpg"@.contains('/') && !"json"@.contains('/'),
{
    reveal_strlit(".");
    reveal_strlit("json");
    reveal_strlit("jpg");
    reveal_strlit("224.jpg");
    reveal_strlit("inference.json");
    reveal_strlit("labels.json");
    reveal_strlit(".json");
    reveal_strlit(".jpg");
    reveal_strlit(".224.jpg");
    reveal_strlit(".inference.json");
    reveal_strlit(".labels.json");
    assert("."@ + "json"@ =~= ".json"@);
    assert("."@ + "jpg"@ =~= ".jpg"@);
    assert("."@ + "224.jpg"@ =~= ".224.jpg"@);
    assert("."@ + "inference.json"@ =~= ".inference.json"@);
    assert("."@ + "labels.json"@ =~= ".labels.json"@);
}

/// Each write is to the file that it names, in its place, with what it holds.
pub proof fn law_writes_are_seen_as_they_are(writes: Seq<FileWrite>)
    ensures
        store::write_views(writes).len() == writes.len(),
        forall|i: int|
            0 <= i < writes.len() ==> #[trigger] store::write_views(writes)[i] == (
                writes[i].file_name@,
                writes[i].content,
            ),
{
}

/// What is noted of a frame is its name, its time in whole milliseconds, its hash,
/// and how far that is from the last one kept.
pub proof fn law_metadata_tells_the_frame(
    metadata: FrameMetadata,
    frame: Frame,
    p_hash_distance: Option<u64>,
)
    requires
        store::is_metadata_of(metadata, frame, p_hash_distance),
        frame.timestamp.is_valid(),
    ensures
        metadata.name@ == time::basename(frame.timestamp),
        metadata.timestamp * 1_000_000 <= frame.timestamp.secs * 1_000_000_000
            + frame.timestamp.nanos,
        frame.timestamp.secs * 1_000_000_000 + frame.timestamp.nanos < (metadata.timestamp + 1)
            * 1_000_000,
        metadata.p_hash@ == frame.p_hash@,
        metadata.p_hash_distance == p_hash_distance,
{
    time::law_millis_are_whole(frame.timestamp);
}

/// The files that belong to a picture are told by its name without `.jpg`, whatever
/// dots that holds.
pub proof fn law_files_beside_a_picture(name: Seq<char>)
    requires
        name.len() > 0,
        !name.contains('/'),
    ensures
        store::metadata_file(name + ".jpg"@) == name + ".json"@,
        store::inference_file(name + ".jpg"@) == name + ".inference.json"@,
{
    lemma_extensions_with_dots();
    lemma_extension_changes(name, "jpg"@, "json"@);
    lemma_extension_changes(name, "json"@, "inference.json"@);
    assert(name + "."@ + "jpg"@ =~= name + ".jpg"@);
    assert(name + "."@ + "json"@ =~= name + ".json"@);
    assert(name + "."@ + "inference.json"@ =~= name + ".inference.json"@);
}

proof fn lemma_extension_changes(name: Seq<char>, extension: Seq<char>, replacement: Seq<char>)
    requires
        name.len() > 0,
        !name.contains('/'),
        !extension.contains('/'),
        !extension.contains('.'),
    ensures
        files::extended(name + "."@ + extension, replacement) == name + "."@ + replacement,
{
    reveal_strlit(".");
    let whole = name + "."@ + extension;
    assert forall|i: int| 0 <= i < whole.len() implies whole[i] != '/' by {
        if i < name.len() {
            assert(name.contains(name[i]));
        } else if i > name.len() {
            assert(extension.contains(extension[i - name.len() - 1]));
        }
    }
    files::lemma_no_directory(whole);
    files::lemma_stem_of_extended(name, extension);
    assert(files::extended(whole, replacement) =~= name + "."@ + replacement);
}

/// What a frame is removed by: the picture of its name, and then three times its
/// metadata. Where the name has an extension, it is that which is replaced.
pub proof fn law_files_removed_with_a_frame(name: Seq<char>, extension: Seq<char>)
    requires
        files::is_undotted(name),
        !extension.contains('/'),
        !extension.contains('.'),
    ensures
        store::deleted_files(name) == seq![
            name + ".jpg"@,
            name + ".json"@,
            name + ".json"@,
            name + ".json"@,
        ],
        store::deleted_files(name + "."@ + extension) == seq![
            name + ".jpg"@,
            name + ".json"@,
            name + ".json"@,
            name + ".json"@,
        ],
        training::label_file(name) == name + ".labels.json"@,
        training::label_file(name + "."@ + extension) == name + ".labels.json"@,
{
    lemma_extensions_with_dots();
    assert(!name.contains('/'));
    law_files_beside_a_picture(name);
    files::lemma_undotted_name(name, "jpg"@);
    files::lemma_undotted_name(name, "labels.json"@);
    lemma_extension_changes(name, extension, "jpg"@);
    lemma_extension_changes(name, extension, "labels.json"@);
    assert(name + "."@ + "jpg"@ =~= name + ".jpg"@);
    assert(name + "."@ + "labels.json"@ =~= name + ".labels.json"@);
}

/// A frame is there exactly if its metadata could be read, and then with that; what
/// the models said is there exactly if it could be read too.
pub proof fn law_entry_is_what_was_read(read: FrameRead)
    ensures
        store::entry_of(read) is Some <==> read.metadata is Parsed,
        read.metadata matches FileRead::Parsed(metadata) ==> {
            let entry = store::entry_of(read)->0;
            &&& entry.metadata == metadata
            &&& entry.inference is Some <==> read.inference is Parsed
            &&& read.inference matches FileRead::Parsed(results) ==> entry.inference == Some(
                results,
            )
        },
{
}

/// How many of the first `n` frames have metadata that could be read.
pub open spec fn readable_before(reads: Seq<FrameRead>, n: int) -> int
    decreases n,
{
    if n <= 0 {
        0
    } else if reads[n - 1].metadata is Parsed {
        readable_before(reads, n - 1) + 1
    } else {
        readable_before(reads, n - 1)
    }
}

proof fn lemma_readable_are_kept(reads: Seq<FrameRead>, n: int)
    requires
        0 <= n <= reads.len(),
    ensures
        store::collected(reads.take(n)).len() == readable_before(reads, n),
        forall|j: int|
            0 <= j < n && (#[trigger] reads[j]).metadata is Parsed ==> {
                let i = readable_before(reads, j);
                let kept = store::collected(reads.take(n));
                &&& 0 <= i < kept.len()
                &&& kept[i].metadata == reads[j].metadata->Parsed_0
                &&& kept[i].inference is Some <==> reads[j].inference is Parsed
                &&& reads[j].inference is Parsed ==> kept[i].inference->0
                    == reads[j].inference->Parsed_0
            },
    decreases n,
{
    let f = |read: FrameRead| store::entry_of(read);
    if n == 0 {
        assert(reads.take(0) =~= Seq::empty());
        assert(Seq::<FrameRead>::empty().filter_map(f) =~= Seq::empty());
    } else {
        lemma_readable_are_kept(reads, n - 1);
        reads.lemma_filter_map_take_succ(f, n - 1);
        let earlier = store::collected(reads.take(n - 1));
        let kept = store::collected(reads.take(n));
        assert forall|j: int| 0 <= j < n && (#[trigger] reads[j]).metadata is Parsed implies {
            let i = readable_before(reads, j);
            &&& 0 <= i < kept.len()
            &&& kept[i].metadata == reads[j].metadata->Parsed_0
            &&& kept[i].inference is Some <==> reads[j].inference is Parsed
            &&& reads[j].inference is Parsed ==> kept[i].inference->0
                == reads[j].inference->Parsed_0
        } by {
            let i = readable_before(reads, j);
            if j < n - 1 {
                assert(0 <= i < earlier.len());
                assert(kept[i] == earlier[i]);
            }
        }
    }
}

/// A frame whose metadata could be read stands behind those that come before it and
/// could be read, with its metadata and with what could be read of its models; the
/// others are left out.
pub proof fn law_readable_frames_keep_their_order(reads: Seq<FrameRead>)
    ensures
        store::collected(reads).len() == readable_before(reads, reads.len() as int),
        forall|j: int|
            0 <= j < reads.len() && (#[trigger] reads[j]).metadata is Parsed ==> {
                let i = readable_before(reads, j);
                let kept = store::collected(reads);
                &&& 0 <= i < kept.len()
                &&& kept[i].metadata == reads[j].metadata->Parsed_0
                &&& kept[i].inference is Some <==> reads[j].inference is Parsed
                &&& reads[j].inference is Parsed ==> kept[i].inference->0
                    == reads[j].inference->Parsed_0
            },
{
    lemma_readable_are_kept(reads, reads.len() as int);
    assert(reads.take(reads.len() as int) =~= reads);
}

/// The files that belong to a picture stand in its directory, under its name; a
/// picture that is called by its ending alone keeps that as its name.
pub proof fn law_files_beside_a_picture_in_a_directory(directory: Seq<char>, name: Seq<char>)
    requires
        directory.len() > 0 ==> directory.last() == '/',
        !name.contains('/'),
    ensures
        name.len() > 0 ==> store::metadata_file(directory + (name + ".jpg"@)) == directory + (name
            + ".json"@),
        name.len() > 0 ==> store::inference_file(directory + (name + ".jpg"@)) == directory + (name
            + ".inference.json"@),
        store::metadata_file(directory + ".jpg"@) == directory + ".jpg.json"@,
        store::inference_file(directory + ".jpg"@) == directory + ".jpg.inference.json"@,
{
    reveal_strlit(".jpg");
    reveal_strlit(".jpg.json");
    reveal_strlit(".jpg.inference.json");
    reveal_strlit(".json");
    reveal_strlit(".inference.json");
    reveal_strlit("jpg");
    reveal_strlit("json");
    reveal_strlit("inference.json");
    assert(name + seq!['.'] + "jpg"@ =~= name + ".jpg"@);
    assert(name + seq!['.'] + "json"@ =~= name + ".json"@);
    assert(name + seq!['.'] + "inference.json"@ =~= name + ".inference.json"@);
    files::law_extension_of_any_path(directory, name, "jpg"@, "json"@);
    files::law_extension_of_any_path(directory, name, "json"@, "inference.json"@);
    let bare = ".jpg"@;
    assert(bare + seq!['.'] + "json"@ =~= ".jpg.json"@);
    assert(bare + seq!['.'] + "inference.json"@ =~= ".jpg.inference.json"@);
    files::law_extension_of_any_path(directory, bare, "json"@, "json"@);
    files::law_extension_of_any_path(directory, bare, "json"@, "inference.json"@);
}

/// Whatever a frame is called by when it is removed or labeled, the last extension in
/// that, if it has one, gives way to those of its files.
pub proof fn law_files_by_any_name(
    directory: Seq<char>,
    name: Seq<char>,
    extension: Seq<char>,
    called: Seq<char>,
)
    requires
        directory.len() > 0 ==> directory.last() == '/',
        name.len() > 0,
        !name.contains('/'),
        !extension.contains('/'),
        !extension.contains('.'),
        called == directory + (name + seq!['.'] + extension) || (called == directory + name
            && forall|i: int| 0 < i < name.len() ==> #[trigger] name[i] != '.'),
    ensures
        store::deleted_files(called) == seq![
            directory + (name + ".jpg"@),
            directory + (name + ".json"@),
            directory + (name + ".json"@),
            directory + (name + ".json"@),
        ],
        training::label_file(called) == directory + (name + ".labels.json"@),
        files::extended(called, "inference.json"@) == directory + (name + ".inference.json"@),
{
    reveal_strlit(".jpg");
    reveal_strlit(".labels.json");
    reveal_strlit(".inference.json");
    reveal_strlit("jpg");
    reveal_strlit("labels.json");
    reveal_strlit("inference.json");
    assert(name + seq!['.'] + "jpg"@ =~= name + ".jpg"@);
    assert(name + seq!['.'] + "labels.json"@ =~= name + ".labels.json"@);
    assert(name + seq!['.'] + "inference.json"@ =~= name + ".inference.json"@);
    files::law_extension_of_any_path(directory, name, extension, "jpg"@);
    files::law_extension_of_any_path(directory, name, extension, "labels.json"@);
    files::law_extension_of_any_path(directory, name, extension, "inference.json"@);
    law_files_beside_a_picture_in_a_directory(directory, name);
}

} // verus!
