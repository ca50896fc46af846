//! The frames that were kept, in files of one directory.

use crate::api::time_to_file_basename;
use crate::camera::Frame;
use crate::files;
use crate::inference::InferenceResult;
use crate::listing;
use crate::listing::select_page;
use crate::time;
use std::path::PathBuf;
use std::sync::Arc;
use vstd::prelude::*;
use vstd::string::*;

verus! {

/// What is noted of a frame at the time of its capture.
#[derive(Clone, Debug)]
pub struct FrameMetadata {
    pub name: String,
    pub timestamp: i64,
    pub p_hash: String,
    pub p_hash_distance: Option<u64>,
}

/// A stored frame.
#[derive(Clone, Debug)]
pub struct FrameStoreEntry {
    pub metadata: FrameMetadata,
    pub inference: Option<Vec<InferenceResult>>,
}

/// The directory that holds the frames.
#[derive(Debug)]
pub struct FrameStore {
    pub image_storage_dir: PathBuf,
}

/// What a file of a frame holds.
#[derive(Clone, Copy, Debug, PartialEq, Eq, Structural)]
pub enum FileContent {
    /// The metadata, as JSON.
    Metadata,
    /// The picture, as a JPEG.
    Picture,
    /// The small picture that the models saw, as a JPEG.
    Preview,
    /// What the models said, as JSON.
    Inference,
}

/// A file to be written to the storage directory.
#[derive(Debug)]
pub struct FileWrite {
    pub file_name: String,
    pub content: FileContent,
}

/// A frame that is to be stored, and the files to be written for it, in their
/// order. Once all of them are written the frame is stored, and told of.
#[derive(Debug)]
pub struct CapturedFrame {
    pub entry: FrameStoreEntry,
    pub writes: Vec<FileWrite>,
}

/// The files of a listed frame.
#[derive(Debug)]
pub struct FrameFiles {
    pub picture: String,
    pub metadata: String,
    pub inference: String,
}

/// What came of reading a file.
#[derive(Debug)]
pub enum FileRead<T> {
    /// It is not there or could not be read.
    Unreadable,
    /// It does not hold what it should.
    Unparsable,
    Parsed(T),
}

/// What came of reading the files of a listed frame.
#[derive(Debug)]
pub struct FrameRead {
    pub metadata: FileRead<FrameMetadata>,
    pub inference: FileRead<Vec<InferenceResult>>,
}

/// A name with an extension.
pub open spec fn with_extension(name: Seq<char>, extension: Seq<char>) -> Seq<char> {
    name + "."@ + extension
}

/// The files to write for a frame of the given name: first the metadata, then
/// the picture and the small picture, at last what the models said, if it was
/// asked.
pub open spec fn capture_files(name: Seq<char>, inferred: bool) -> Seq<(Seq<char>, FileContent)> {
    let always = seq![
        (with_extension(name, "json"@), FileContent::Metadata),
        (with_extension(name, "jpg"@), FileContent::Picture),
        (with_extension(name, "224.jpg"@), FileContent::Preview),
    ];
    if inferred {
        always.push((with_extension(name, "inference.json"@), FileContent::Inference))
    } else {
        always
    }
}

/// What some writes are: the names of the files and what they hold.
pub open spec fn write_views(writes: Seq<FileWrite>) -> Seq<(Seq<char>, FileContent)> {
    writes.map_values(|w: FileWrite| (w.file_name@, w.content))
}

/// What is noted of a frame.
pub open spec fn is_metadata_of(
    metadata: FrameMetadata,
    frame: Frame,
    p_hash_distance: Option<u64>,
) -> bool {
    &&& metadata.name@ == time::basename(frame.timestamp)
    &&& metadata.timestamp == frame.timestamp.millis()
    &&& metadata.p_hash@ == frame.p_hash@
    &&& metadata.p_hash_distance == p_hash_distance
}

/// The file with the metadata that belongs to a picture.
pub open spec fn metadata_file(picture: Seq<char>) -> Seq<char> {
    files::extended(picture, "json"@)
}

/// The file with what the models said of a picture.
pub open spec fn inference_file(picture: Seq<char>) -> Seq<char> {
    files::extended(metadata_file(picture), "inference.json"@)
}

/// What was read of a frame, where its metadata could be read. What the models
/// said may be missing.
pub open spec fn entry_of(read: FrameRead) -> Option<FrameStoreEntry> {
    match read.metadata {
        FileRead::Parsed(metadata) => Some(
            FrameStoreEntry {
                metadata,
                inference: match read.inference {
                    FileRead::Parsed(results) => Some(results),
                    _ => None,
                },
            },
        ),
        _ => None,
    }
}

/// The frames whose metadata could be read, in their order.
pub open spec fn collected(reads: Seq<FrameRead>) -> Seq<FrameStoreEntry> {
    reads.filter_map(|read: FrameRead| entry_of(read))
}

/// The files that are removed with a frame, in the order of the attempts. The
/// metadata is tried three times; the small picture and what the models said
/// stay.
pub open spec fn deleted_files(name: Seq<char>) -> Seq<Seq<char>> {
    let picture = files::extended(name, "jpg"@);
    seq![picture, metadata_file(picture), metadata_file(picture), metadata_file(picture)]
}

/// What the extensions consist of.
proof fn lemma_extensions()
    ensures
        files::is_plain("json"@),
        files::is_plain("jpg"@),
        "224.jpg"@.len() > 0,
        !"224.jpg"@.contains('/') && !"224.jpg"@.contains('\\'),
        "inference.json"@.len() > 0,
        !"inference.json"@.contains('/') && !"inference.json"@.contains('\\'),
        !"json"@.contains('/') && !"json"@.contains('\\'),
        !"jpg"@.contains('/') && !"jpg"@.contains('\\'),
{
    reveal_strlit("json");
    reveal_strlit("jpg");
    reveal_strlit("224.jpg");
    reveal_strlit("inference.json");
}

impl FrameStore {
    /// A store in the given directory.
    pub fn new(image_storage_dir: PathBuf) -> (r: Arc<FrameStore>)
        ensures
            r.image_storage_dir == image_storage_dir,
    {
        Arc::new(FrameStore { image_storage_dir })
    }

    /// Says how a frame is stored, along with what is known of it at the time
    /// of its capture.
    pub fn write_frame_capture_data(
        &self,
        frame: &Frame,
        p_hash_distance: Option<u64>,
        inference_results: Option<Vec<InferenceResult>>,
    ) -> (r: CapturedFrame)
        requires
            frame.timestamp.is_valid(),
        ensures
            is_metadata_of(r.entry.metadata, *frame, p_hash_distance),
            r.entry.inference == inference_results,
            write_views(r.writes@) == capture_files(
                time::basename(frame.timestamp),
                inference_results is Some,
            ),
    {
        let name: String = time_to_file_basename(&frame.timestamp);
        proof {
            lemma_extensions();
            time::law_basename_is_plain(frame.timestamp);
            time::lemma_name_text_is_plain(name@);
            files::lemma_undotted_name(name@, "json"@);
            files::lemma_extension_replaced(name@, "json"@, "jpg"@);
            files::lemma_extension_replaced(name@, "jpg"@, "224.jpg"@);
            files::lemma_undotted_name(name@, "inference.json"@);
        }
        let json_name: String = files::set_extension(&name, "json");
        let jpg_name: String = files::set_extension(&json_name, "jpg");
        let preview_name: String = files::set_extension(&jpg_name, "224.jpg");
        let mut writes: Vec<FileWrite> = Vec::new();
        writes.push(FileWrite { file_name: json_name, content: FileContent::Metadata });
        writes.push(FileWrite { file_name: jpg_name, content: FileContent::Picture });
        writes.push(FileWrite { file_name: preview_name, content: FileContent::Preview });
        if inference_results.is_some() {
            let inference_name: String = self.write_inference(&name);
            writes.push(FileWrite { file_name: inference_name, content: FileContent::Inference });
        }
        proof {
            assert(write_views(writes@) =~= capture_files(name@, inference_results is Some));
        }
        let metadata = FrameMetadata {
            name,
            timestamp: frame.timestamp.timestamp_millis(),
            p_hash: frame.p_hash.clone(),
            p_hash_distance,
        };
        CapturedFrame { entry: FrameStoreEntry { metadata, inference: inference_results }, writes }
    }

    /// Names the file for what the models said of a frame.
    pub fn write_inference(&self, frame_name: &str) -> (r: String)
        ensures
            files::names_file(frame_name@) ==> r@ == files::extended(
                frame_name@,
                "inference.json"@,
            ),
    {
        proof {
            lemma_extensions();
        }
        files::set_extension(frame_name, "inference.json")
    }

    /// Says which files make up a page of frames, the newest frame first.
    /// `names` are the files in the directory.
    pub fn list_frames(
        &self,
        names: &Vec<String>,
        last: Option<usize>,
        before: &Option<String>,
        first: Option<usize>,
        after: &Option<String>,
    ) -> (r: Vec<FrameFiles>)
        ensures
            r@.map_values(|f: FrameFiles| f.picture@) == listing::page(
                listing::views(names@),
                last,
                listing::view_of(*before),
                first,
                listing::view_of(*after),
            ),
            forall|i: int|
                0 <= i < r@.len() && files::names_file((#[trigger] r@[i]).picture@) ==> r@[i].metadata@
                    == metadata_file(r@[i].picture@) && r@[i].inference@ == inference_file(
                    r@[i].picture@,
                ),
    {
        let pictures: Vec<String> = select_page(names, last, before, first, after);
        let ghost page = pictures@;
        let mut frames: Vec<FrameFiles> = Vec::new();
        proof {
            lemma_extensions();
        }
        for picture in it: pictures
            invariant
                it.seq() == page,
                files::is_plain("json"@),
                "inference.json"@.len() > 0,
                !"inference.json"@.contains('/') && !"inference.json"@.contains('\\'),
                !"json"@.contains('/') && !"json"@.contains('\\'),
                frames@.len() == it.index(),
                forall|i: int|
                    0 <= i < frames@.len() ==> (#[trigger] frames@[i]).picture@ == page[i]@,
                forall|i: int|
                    0 <= i < frames@.len() && files::names_file((#[trigger] frames@[i]).picture@)
                        ==> frames@[i].metadata@ == metadata_file(frames@[i].picture@)
                        && frames@[i].inference@ == inference_file(frames@[i].picture@),
        {
            proof {
                if files::names_file(picture@) {
                    files::lemma_extended_names_file(picture@, "json"@);
                }
            }
            let metadata: String = files::set_extension(&picture, "json");
            let inference: String = files::set_extension(&metadata, "inference.json");
            frames.push(FrameFiles { picture, metadata, inference });
        }
        assert(frames@.map_values(|f: FrameFiles| f.picture@) =~= listing::views(page));
        frames
    }

    /// Gathers the frames of a page from what was read of their files. A frame
    /// without metadata is left out.
    pub fn collect_frames(&self, reads: Vec<FrameRead>) -> (r: Vec<FrameStoreEntry>)
        ensures
            r@ == collected(reads@),
    {
        let ghost f = |read: FrameRead| entry_of(read);
        let mut entries: Vec<FrameStoreEntry> = Vec::new();
        for read in it: reads
            invariant
                it.seq() == reads@,
                f == (|read: FrameRead| entry_of(read)),
                entries@ == reads@.take(it.index() as int).filter_map(f),
        {
            proof {
                reads@.lemma_filter_map_take_succ(f, it.index() as int);
            }
            match read.metadata {
                FileRead::Parsed(metadata) => {
                    let inference: Option<Vec<InferenceResult>> = match read.inference {
                        FileRead::Parsed(results) => Some(results),
                        _ => None,
                    };
                    entries.push(FrameStoreEntry { metadata, inference });
                },
                _ => {},
            }
        }
        assert(reads@.take(reads@.len() as int) =~= reads@);
        entries
    }

    /// Says which files are to be removed with a frame.
    pub fn delete(&self, name: &str) -> (r: Vec<String>)
        ensures
            r@.len() == 4,
            r@[2]@ == r@[1]@ && r@[3]@ == r@[1]@,
            files::names_file(name@) ==> listing::views(r@) == deleted_files(name@),
    {
        proof {
            lemma_extensions();
            if files::names_file(name@) {
                files::lemma_extended_names_file(name@, "jpg"@);
            }
        }
        let jpg_name: String = files::set_extension(name, "jpg");
        let json_name: String = files::set_extension(&jpg_name, "json");
        let mut removals: Vec<String> = Vec::new();
        removals.push(jpg_name);
        removals.push(json_name.clone());
        removals.push(json_name.clone());
        removals.push(json_name);
        proof {
            if files::names_file(name@) {
                assert(listing::views(removals@) =~= deleted_files(name@));
            }
        }
        removals
    }

    /// What came of removing a frame: the failure to remove the picture, or
    /// else that of the first attempt to remove the metadata. Other failures do not
    /// count.
    pub fn deletion_result<E>(picture: Result<(), E>, metadata: Result<(), E>) -> (r: Result<(), E>)
        ensures
            r == if picture is Err {
                picture
            } else {
                metadata
            },
    {
        match picture {
            Ok(()) => metadata,
            Err(e) => Err(e),
        }
    }
}

} // verus!
