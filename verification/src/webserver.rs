//! What the web server answers.

use crate::api;
use crate::api::{show_frame, ApiError, FrameEdge, Frames};
use crate::camera::Frame;
use crate::store::FrameStoreEntry;
use vstd::prelude::*;
use vstd::string::*;

verus! {

/// What is told of a failure.
#[derive(Debug)]
pub struct ApiErrorData {
    pub message: String,
}

/// The body of an answer.
#[derive(Debug)]
pub enum FramesBody {
    Frames(Frames),
    Error(ApiErrorData),
}

/// The HTTP status of a success.
pub const OK: u16 = 200;

/// Answers a request for frames, with an HTTP status.
pub fn api_frames(result: Result<Frames, ApiError>) -> (r: (u16, FramesBody))
    ensures
        r == match result {
            Ok(data) => (OK, FramesBody::Frames(data)),
            Err(e) => (e.code, FramesBody::Error(ApiErrorData { message: e.message })),
        },
        result is Ok ==> r.0 == 200,
{
    match result {
        Ok(data) => (OK, FramesBody::Frames(data)),
        Err(e) => (e.code, FramesBody::Error(ApiErrorData { message: e.message })),
    }
}

/// One picture of a feed, with what its header says of it.
#[derive(Debug)]
pub struct MjpegPart {
    pub content_type: String,
    pub content_length: usize,
    pub body: Vec<u8>,
}

/// Makes a frame part of a feed.
pub fn mjpeg_part(frame: Frame) -> (r: MjpegPart)
    ensures
        r.content_type@ == "image/jpeg"@,
        r.content_length == r.body@.len(),
        r.body == frame.jpeg,
{
    MjpegPart {
        content_type: "image/jpeg".to_owned(),
        content_length: frame.jpeg.len(),
        body: frame.jpeg,
    }
}

/// Tells of a frame that was just stored. Its labels are not looked for.
pub fn api_frames_latest(entry: FrameStoreEntry) -> (r: FrameEdge)
    ensures
        api::shows(r.node, entry.metadata, None),
        r.cursor@ == entry.metadata.name@,
{
    let cursor: String = entry.metadata.name.clone();
    FrameEdge { node: show_frame(entry.metadata, None), cursor }
}

} // verus!
