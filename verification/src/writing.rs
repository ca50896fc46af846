//! Writing the files of a frame, one after the other.

use crate::camera::Frame;
use crate::inference::InferenceResult;
use crate::store::{FileContent, FileWrite};
use vstd::prelude::*;

verus! {

/// A frame whose files are being written. Once all are, `result` is what there is
/// to tell of it.
#[derive(Debug)]
pub struct FrameWriter<T> {
    pub result: T,
    pub writes: Vec<FileWrite>,
    /// How many of the files are written.
    pub written: usize,
}

/// How far the writing has come.
#[derive(Debug)]
pub enum WriteProgress<T, E> {
    /// There is a file to write.
    Writing(FrameWriter<T>),
    /// A file could not be written.
    Failed(E),
    /// All files are written.
    Stored(T),
}

/// Where the writing stands: there is a file to write, or all are written.
pub open spec fn progress_of<T, E>(writer: FrameWriter<T>) -> WriteProgress<T, E> {
    if writer.written < writer.writes@.len() {
        WriteProgress::Writing(writer)
    } else {
        WriteProgress::Stored(writer.result)
    }
}

/// Where the writing stands after one more file: it ends with the first failure.
pub open spec fn progress_after<T, E>(
    writer: FrameWriter<T>,
    outcome: Result<(), E>,
) -> WriteProgress<T, E> {
    match outcome {
        Ok(_) => progress_of(FrameWriter { written: (writer.written + 1) as usize, ..writer }),
        Err(e) => WriteProgress::Failed(e),
    }
}

impl<T> FrameWriter<T> {
    /// There is a file to write.
    pub open spec fn is_valid(self) -> bool {
        self.written < self.writes@.len()
    }

    /// Begins to write some files.
    pub fn start<E>(result: T, writes: Vec<FileWrite>) -> (r: WriteProgress<T, E>)
        ensures
            r == progress_of::<T, E>(FrameWriter { result, writes, written: 0 }),
            r matches WriteProgress::Writing(writer) ==> writer.is_valid(),
    {
        if writes.len() > 0 {
            WriteProgress::Writing(FrameWriter { result, writes, written: 0 })
        } else {
            WriteProgress::Stored(result)
        }
    }

    /// The file to write.
    pub fn next(&self) -> (r: &FileWrite)
        requires
            self.is_valid(),
        ensures
            *r == self.writes@[self.written as int],
    {
        &self.writes[self.written]
    }

    /// Goes on after that file was written, or could not be.
    pub fn step<E>(self, outcome: Result<(), E>) -> (r: WriteProgress<T, E>)
        requires
            self.is_valid(),
        ensures
            r == progress_after(self, outcome),
            r matches WriteProgress::Writing(writer) ==> writer.is_valid(),
    {
        match outcome {
            Ok(_) => {
                let mut writer = self;
                let count: usize = writer.writes.len();
                writer.written = writer.written + 1;
                if writer.written < count {
                    WriteProgress::Writing(writer)
                } else {
                    WriteProgress::Stored(writer.result)
                }
            },
            Err(e) => WriteProgress::Failed(e),
        }
    }
}

/// The bytes of a file of a frame, where it is a picture. The other files are
/// JSON.
pub open spec fn picture_bytes(frame: Frame, content: FileContent) -> Option<Seq<u8>> {
    match content {
        FileContent::Picture => Some(frame.jpeg@),
        FileContent::Preview => Some(frame.inference_jpeg@),
        FileContent::Metadata | FileContent::Inference => None,
    }
}

/// Finds the bytes of a file of a frame, where it is a picture.
pub fn content_of(frame: &Frame, content: FileContent) -> (r: Option<Vec<u8>>)
    ensures
        match r {
            Some(bytes) => picture_bytes(*frame, content) == Some(bytes@),
            None => picture_bytes(*frame, content) is None,
        },
        content == FileContent::Picture ==> r is Some && (r->0)@ == frame.jpeg@,
        content == FileContent::Preview ==> r is Some && (r->0)@ == frame.inference_jpeg@,
        content == FileContent::Metadata || content == FileContent::Inference ==> r is None,
{
    match content {
        FileContent::Picture => {
            let bytes: Vec<u8> = frame.jpeg.clone();
            assert(bytes@ =~= frame.jpeg@);
            Some(bytes)
        },
        FileContent::Preview => {
            let bytes: Vec<u8> = frame.inference_jpeg.clone();
            assert(bytes@ =~= frame.inference_jpeg@);
            Some(bytes)
        },
        FileContent::Metadata | FileContent::Inference => None,
    }
}

/// Where the writing stands after files were tried with the given outcomes.
pub open spec fn progress_through<T, E>(
    result: T,
    writes: Vec<FileWrite>,
    outcomes: Seq<Result<(), E>>,
) -> WriteProgress<T, E>
    decreases outcomes.len(),
{
    if outcomes.len() == 0 {
        progress_of(FrameWriter { result, writes, written: 0 })
    } else {
        match progress_through(result, writes, outcomes.drop_last()) {
            WriteProgress::Writing(writer) => progress_after(writer, outcomes.last()),
            ended => ended,
        }
    }
}

/// A frame is stored exactly when every one of its files is written. A file is
/// tried only when all before it are written, and the first failure is the one
/// that is told.
pub proof fn law_stored_when_all_are_written<T, E>(
    result: T,
    writes: Vec<FileWrite>,
    outcomes: Seq<Result<(), E>>,
)
    ensures
        progress_through(result, writes, outcomes) is Stored <==> outcomes.len()
            >= writes@.len() && forall|i: int| 0 <= i < writes@.len() ==> #[trigger] outcomes[i] is Ok,
        match progress_through(result, writes, outcomes) {
            WriteProgress::Stored(told) => told == result,
            WriteProgress::Writing(writer) => {
                &&& writer == (FrameWriter { result, writes, written: outcomes.len() as usize })
                &&& outcomes.len() < writes@.len()
                &&& forall|i: int| 0 <= i < outcomes.len() ==> #[trigger] outcomes[i] is Ok
            },
            WriteProgress::Failed(e) => exists|k: int|
                0 <= k < outcomes.len() && k < writes@.len() && #[trigger] outcomes[k] == Err::<
                    (),
                    E,
                >(e) && forall|i: int| 0 <= i < k ==> #[trigger] outcomes[i] is Ok,
        },
    decreases outcomes.len(),
{
    assert(writes.len() == writes@.len());
    if outcomes.len() > 0 {
        let front = outcomes.drop_last();
        let last = outcomes.len() - 1;
        law_stored_when_all_are_written(result, writes, front);
        assert forall|i: int| 0 <= i < front.len() implies front[i] == #[trigger] outcomes[i] by {}
        match progress_through(result, writes, front) {
            WriteProgress::Failed(e) => {
                let k = choose|k: int|
                    0 <= k < front.len() && k < writes@.len() && #[trigger] front[k] == Err::<
                        (),
                        E,
                    >(e) && forall|i: int| 0 <= i < k ==> #[trigger] front[i] is Ok;
                assert(outcomes[k] == Err::<(), E>(e));
                assert forall|i: int| 0 <= i < k implies #[trigger] outcomes[i] is Ok by {
                    assert(front[i] is Ok);
                }
            },
            WriteProgress::Writing(writer) => {
                assert forall|i: int| 0 <= i < last implies #[trigger] outcomes[i] is Ok by {
                    assert(front[i] is Ok);
                }
                if outcomes[last] is Err {
                    assert(outcomes[last] == Err::<(), E>(outcomes[last]->Err_0));
                }
            },
            WriteProgress::Stored(_) => {
                assert forall|i: int| 0 <= i < writes@.len() implies #[trigger] outcomes[i] is Ok by {
                    assert(front[i] is Ok);
                }
            },
        }
    }
}

/// What a file holds: bytes, or the JSON of what is noted of a frame or of what
/// the models said.
pub enum Held<M> {
    Bytes(Seq<u8>),
    Metadata(M),
    Inference(Option<Vec<InferenceResult>>),
}

/// What a file of a frame holds.
pub open spec fn held<M>(
    frame: Frame,
    metadata: M,
    inference: Option<Vec<InferenceResult>>,
    content: FileContent,
) -> Held<M> {
    match picture_bytes(frame, content) {
        Some(bytes) => Held::Bytes(bytes),
        None => if content == FileContent::Metadata {
            Held::Metadata(metadata)
        } else {
            Held::Inference(inference)
        },
    }
}

/// A directory after some files of a frame were written to it.
pub open spec fn directory_after<M>(
    directory: Map<Seq<char>, Held<M>>,
    files: Seq<(Seq<char>, FileContent)>,
    frame: Frame,
    metadata: M,
    inference: Option<Vec<InferenceResult>>,
) -> Map<Seq<char>, Held<M>>
    decreases files.len(),
{
    if files.len() == 0 {
        directory
    } else {
        let (name, content) = files.last();
        directory_after(directory, files.drop_last(), frame, metadata, inference).insert(
            name,
            held(frame, metadata, inference, content),
        )
    }
}

/// A file that holds the picture of a frame holds its JPEG, one that holds the small
/// picture the JPEG of that, and the other files hold no picture.
pub proof fn law_pictures_are_the_frames(frame: Frame)
    ensures
        picture_bytes(frame, FileContent::Picture) == Some(frame.jpeg@),
        picture_bytes(frame, FileContent::Preview) == Some(frame.inference_jpeg@),
        picture_bytes(frame, FileContent::Metadata) is None,
        picture_bytes(frame, FileContent::Inference) is None,
{
}

} // verus!
