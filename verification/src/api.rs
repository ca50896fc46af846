//! The frames as clients see them.

use crate::calendar;
use crate::files;
use crate::listing;
use crate::store;
use crate::store::{FrameFiles, FrameMetadata, FrameStore, FrameStoreEntry};
use crate::text;
use crate::text::ends_with;
use crate::time;
use crate::time::Timestamp;
use crate::training;
use crate::training::{LabelError, LabelFile, LabelStore, Labels};
use std::sync::Arc;
use vstd::prelude::*;
use vstd::string::*;

verus! {

/// A frame.
#[derive(Debug)]
pub struct Frame {
    pub id: String,
    /// The file name of the picture.
    pub src: String,
    pub timestamp: i64,
    pub p_hash: String,
    pub p_hash_distance: Option<u64>,
    pub labels: Option<Labels>,
}

/// A frame, and the cursor by which it can be found again.
#[derive(Debug)]
pub struct FrameEdge {
    pub node: Frame,
    pub cursor: String,
}

/// A page of frames, the newest first.
#[derive(Debug)]
pub struct Frames {
    pub nodes: Vec<Frame>,
    pub has_next_page: bool,
    pub end_cursor: Option<String>,
    pub has_previous_page: bool,
    pub start_cursor: Option<String>,
}

/// The answer to a request that failed: an HTTP status and what went wrong.
#[derive(Debug)]
pub struct ApiError {
    pub code: u16,
    pub message: String,
}

/// The HTTP status of a failure on the side of the server.
pub const INTERNAL_SERVER_ERROR: u16 = 500;

/// Answers requests from the stored frames and their labels.
#[derive(Debug)]
pub struct Api {
    pub frame_store: Arc<FrameStore>,
    pub label_store: Arc<LabelStore>,
}

/// A stored frame, and what came of reading its labels.
#[derive(Debug)]
pub struct LabeledEntry {
    pub entry: FrameStoreEntry,
    pub labels: Result<Labels, LabelError>,
}

/// How an instant is written in a file name.
pub const FILE_NAME_FORMAT: &'static str = "%Y-%m-%d_%H-%M-%S-%3f_%z";

/// `name` is how the format writes the instant: the date that the clock shows,
/// the time of day to the millisecond, and the offset from UTC.
pub open spec fn is_name_of(name: Seq<char>, time: Timestamp) -> bool {
    exists|date: calendar::Date| #[trigger]
        calendar::is_date(date) && calendar::day_number(date) == time.local_day() && name
            == time::basename_on(date, time)
}

/// Calls `chrono::DateTime::format` on the instant, moved to its offset from
/// UTC, and claims of it: the text is the date that the clock shows, the time
/// of day to the millisecond, and the offset, in the digits and with the signs
/// that the format asks for.
#[verifier::external_body]
fn format_time(time: &Timestamp, format: &str) -> (r: String)
    requires
        time.is_valid(),
        format@ == FILE_NAME_FORMAT@,
    ensures
        is_name_of(r@, *time),
{
    let utc = chrono::DateTime::from_timestamp(time.secs, time.nanos).unwrap();
    let offset = chrono::FixedOffset::east_opt(time.utc_offset).unwrap();
    utc.with_timezone(&offset).format(format).to_string()
}

/// The name, without an extension, of the files that belong to an instant.
pub fn time_to_file_basename(time: &Timestamp) -> (r: String)
    requires
        time.is_valid(),
    ensures
        r@ == time::basename(*time),
{
    let r: String = format_time(time, FILE_NAME_FORMAT);
    proof {
        let day = time.local_day();
        let date = choose|date: calendar::Date| #[trigger]
            calendar::is_date(date) && calendar::day_number(date) == day && r@
                == time::basename_on(date, *time);
        calendar::lemma_date_of(day);
        calendar::lemma_date_is_unique(date, calendar::date_of(day));
    }
    r
}

/// A frame shows what is noted of it, and the given labels.
pub open spec fn shows(frame: Frame, metadata: FrameMetadata, labels: Option<Labels>) -> bool {
    &&& frame.id@ == metadata.name@
    &&& frame.src@ == metadata.name@ + ".jpg"@
    &&& frame.timestamp == metadata.timestamp
    &&& frame.p_hash@ == metadata.p_hash@
    &&& frame.p_hash_distance == metadata.p_hash_distance
    &&& frame.labels == labels
}

/// The labels that could be read.
pub open spec fn readable(labels: Result<Labels, LabelError>) -> Option<Labels> {
    match labels {
        Ok(l) => Some(l),
        Err(_) => None,
    }
}

/// A frame with the labels that stand in the file, if they could be read.
pub open spec fn is_labeled(
    labeled: LabeledEntry,
    entry: FrameStoreEntry,
    file: LabelFile,
) -> bool {
    &&& labeled.entry == entry
    &&& match training::stored_tags(file) {
        Ok(tag_sets) => labeled.labels matches Ok(labels) && labels.tag_sets@ == tag_sets,
        Err(e) => labeled.labels == Err::<Labels, LabelError>(e),
    }
}

/// The page shows the entries, in their order. Its cursors are the pictures of
/// its oldest and its newest frame.
pub open spec fn is_page_of(page: Frames, entries: Seq<LabeledEntry>) -> bool {
    let n = entries.len() as int;
    &&& page.nodes@.len() == n
    &&& forall|i: int|
        0 <= i < n ==> shows(
            #[trigger] page.nodes@[i],
            entries[i].entry.metadata,
            readable(entries[i].labels),
        )
    &&& !page.has_next_page
    &&& page.has_previous_page == (n > 0)
    &&& listing::view_of(page.start_cursor) == if n > 0 {
        Some(page.nodes@[n - 1].src@)
    } else {
        None
    }
    &&& listing::view_of(page.end_cursor) == if n > 0 {
        Some(page.nodes@[0].src@)
    } else {
        None
    }
}

/// The name that a cursor stands for: a cursor may be given as the file name of
/// a picture.
pub open spec fn cursor_name(cursor: Seq<char>) -> Seq<char> {
    if text::has_suffix(cursor, ".jpg"@) {
        text::without_last(cursor, 4)
    } else {
        cursor
    }
}

/// The name that an optional cursor stands for.
pub open spec fn bound_of(cursor: Option<Seq<char>>) -> Option<Seq<char>> {
    match cursor {
        Some(c) => Some(cursor_name(c)),
        None => None,
    }
}

/// Finds the name that a cursor stands for.
fn name_of_cursor(cursor: &str) -> (r: String)
    ensures
        r@ == cursor_name(cursor@),
{
    proof {
        reveal_strlit(".jpg");
    }
    if ends_with(cursor, ".jpg") {
        let n: usize = cursor.unicode_len();
        let name: String = cursor.substring_char(0, n - 4).to_owned();
        assert(name@ =~= text::without_last(cursor@, 4));
        name
    } else {
        cursor.to_owned()
    }
}

/// Shows a stored frame.
pub fn show_frame(metadata: FrameMetadata, labels: Option<Labels>) -> (r: Frame)
    ensures
        shows(r, metadata, labels),
{
    let mut src: String = metadata.name.clone();
    src.append(".jpg");
    Frame {
        id: metadata.name,
        src,
        timestamp: metadata.timestamp,
        p_hash: metadata.p_hash,
        p_hash_distance: metadata.p_hash_distance,
        labels,
    }
}

impl Api {
    /// An interface to the given stores.
    pub fn new(frame_store: Arc<FrameStore>, label_store: Arc<LabelStore>) -> (r: Arc<Api>)
        ensures
            r.frame_store == frame_store,
            r.label_store == label_store,
    {
        Arc::new(Api { frame_store, label_store })
    }

    /// Says which files are to be read for a page of frames. `names` are the
    /// files in the storage directory.
    ///
    /// ```text
    /// [oldest] ... [start of page] ... [end of page] ... [newest]
    ///              ^ start cursor      ^ end cursor
    ///
    /// To fetch the newest frames:
    ///                                       |-------------------|
    ///                                       ^ last: count       ^
    ///
    /// To go back to older frames:
    ///                   |-------------------|
    ///                   ^ last: count       ^ before: previous start cursor
    /// ```
    pub fn list(&self, names: &Vec<String>, last: Option<usize>, before: &Option<String>) -> (r: Vec<
        FrameFiles,
    >)
        ensures
            r@.map_values(|f: FrameFiles| f.picture@) == listing::page(
                listing::views(names@),
                last,
                bound_of(listing::view_of(*before)),
                None,
                None,
            ),
            forall|i: int|
                0 <= i < r@.len() && files::names_file((#[trigger] r@[i]).picture@) ==> r@[i].metadata@
                    == store::metadata_file(r@[i].picture@) && r@[i].inference@
                    == store::inference_file(r@[i].picture@),
    {
        let bound: Option<String> = match before {
            Some(cursor) => Some(name_of_cursor(cursor)),
            None => None,
        };
        self.frame_store.list_frames(names, last, &bound, None, &None)
    }

    /// Names the files in which the labels of some frames stand, one for each.
    pub fn label_files(&self, entries: &Vec<FrameStoreEntry>) -> (r: Vec<String>)
        ensures
            r@.len() == entries@.len(),
            forall|i: int|
                0 <= i < entries@.len() && files::names_file(entries@[i].metadata.name@) ==> (
                #[trigger] r@[i])@ == training::label_file(entries@[i].metadata.name@),
    {
        let mut names: Vec<String> = Vec::new();
        let mut n: usize = 0;
        while n < entries.len()
            invariant
                n <= entries@.len(),
                names@.len() == n,
                forall|i: int|
                    0 <= i < n && files::names_file(entries@[i].metadata.name@) ==> (
                    #[trigger] names@[i])@ == training::label_file(entries@[i].metadata.name@),
            decreases entries.len() - n,
        {
            names.push(self.label_store.label_file_path(&entries[n].metadata.name));
            n = n + 1;
        }
        names
    }

    /// Gives frames their labels, from what was read of the files of these.
    pub fn label_entries(&self, entries: Vec<FrameStoreEntry>, read: Vec<LabelFile>) -> (r: Vec<
        LabeledEntry,
    >)
        requires
            entries@.len() == read@.len(),
        ensures
            r@.len() == entries@.len(),
            forall|i: int|
                0 <= i < r@.len() ==> is_labeled(#[trigger] r@[i], entries@[i], read@[i]),
    {
        let mut remaining: Vec<LabelFile> = read;
        let mut labeled: Vec<LabeledEntry> = Vec::new();
        for entry in it: entries
            invariant
                it.seq() == entries@,
                entries@.len() == read@.len(),
                remaining@ == read@.skip(it.index() as int),
                labeled@.len() == it.index(),
                forall|i: int|
                    0 <= i < labeled@.len() ==> is_labeled(
                        #[trigger] labeled@[i],
                        entries@[i],
                        read@[i],
                    ),
        {
            let file: LabelFile = remaining.remove(0);
            assert(remaining@ =~= read@.skip(it.index() + 1));
            labeled.push(LabeledEntry { entry, labels: self.label_store.get_labels(file) });
        }
        labeled
    }

    /// Makes a page of the frames that were listed, or says why they could not
    /// be.
    pub fn frames(&self, listed: Result<Vec<LabeledEntry>, String>) -> (r: Result<Frames, ApiError>)
        ensures
            match listed {
                Ok(entries) => r matches Ok(page) && is_page_of(page, entries@),
                Err(message) => r matches Err(e) && e.code == INTERNAL_SERVER_ERROR && e.message
                    == message,
            },
            r matches Err(e) ==> e.code == 500,
    {
        let entries: Vec<LabeledEntry> = match listed {
            Ok(entries) => entries,
            Err(message) => {
                return Err(ApiError { code: INTERNAL_SERVER_ERROR, message });
            },
        };
        let ghost whole = entries@;
        let mut nodes: Vec<Frame> = Vec::new();
        for labeled in it: entries
            invariant
                it.seq() == whole,
                nodes@.len() == it.index(),
                forall|i: int|
                    0 <= i < nodes@.len() ==> shows(
                        #[trigger] nodes@[i],
                        whole[i].entry.metadata,
                        readable(whole[i].labels),
                    ),
        {
            let labels: Option<Labels> = match labeled.labels {
                Ok(l) => Some(l),
                Err(_) => None,
            };
            nodes.push(show_frame(labeled.entry.metadata, labels));
        }
        let mut start_cursor: Option<String> = None;
        let mut end_cursor: Option<String> = None;
        let n: usize = nodes.len();
        if n > 0 {
            start_cursor = Some(nodes[n - 1].src.clone());
            end_cursor = Some(nodes[0].src.clone());
        }
        Ok(Frames { nodes, has_next_page: false, end_cursor, has_previous_page: n > 0, start_cursor })
    }
}

} // verus!
