//! The bare way to store a frame: its picture and its metadata.

use crate::api::time_to_file_basename;
use crate::camera::Frame;
use crate::files;
use crate::store;
use crate::store::{FileContent, FileWrite};
use crate::time;
use vstd::prelude::*;
use vstd::string::*;

verus! {

/// What is noted of a frame at the time of its capture.
#[derive(Debug)]
pub struct FrameMetadata {
    pub name: String,
    pub timestamp: i64,
    pub p_hash: String,
    pub p_hash_distance: Option<u64>,
}

/// What is noted of a frame, and the files to be written for it, in their
/// order.
#[derive(Debug)]
pub struct FrameCapture {
    pub metadata: FrameMetadata,
    pub writes: Vec<FileWrite>,
}

/// The files to write for a frame of the given name: first the picture, then
/// the metadata.
pub open spec fn capture_files(name: Seq<char>) -> Seq<(Seq<char>, FileContent)> {
    seq![
        (store::with_extension(name, "jpg"@), FileContent::Picture),
        (store::with_extension(name, "json"@), FileContent::Metadata),
    ]
}

/// Says how a frame is stored, along with what is known of it at the time of
/// its capture.
pub fn write_frame_capture_data(frame: Frame, p_hash_distance: Option<u64>) -> (r: FrameCapture)
    requires
        frame.timestamp.is_valid(),
    ensures
        r.metadata.name@ == time::basename(frame.timestamp),
        r.metadata.timestamp == frame.timestamp.millis(),
        r.metadata.p_hash == frame.p_hash,
        r.metadata.p_hash_distance == p_hash_distance,
        store::write_views(r.writes@) == capture_files(time::basename(frame.timestamp)),
{
    let name: String = time_to_file_basename(&frame.timestamp);
    proof {
        reveal_strlit("jpg");
        reveal_strlit("json");
        time::law_basename_is_plain(frame.timestamp);
        time::lemma_name_text_is_plain(name@);
        files::lemma_undotted_name(name@, "jpg"@);
        files::lemma_extension_replaced(name@, "jpg"@, "json"@);
    }
    let jpg_name: String = files::set_extension(&name, "jpg");
    let json_name: String = files::set_extension(&jpg_name, "json");
    let mut writes: Vec<FileWrite> = Vec::new();
    writes.push(FileWrite { file_name: jpg_name, content: FileContent::Picture });
    writes.push(FileWrite { file_name: json_name, content: FileContent::Metadata });
    assert(store::write_views(writes@) =~= capture_files(name@));
    let metadata = FrameMetadata {
        name,
        timestamp: frame.timestamp.timestamp_millis(),
        p_hash: frame.p_hash,
        p_hash_distance,
    };
    FrameCapture { metadata, writes }
}

} // verus!
