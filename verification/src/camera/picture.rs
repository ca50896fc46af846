//! How a raw image becomes a frame.

use crate::camera::format::FrameFormat;
use crate::camera::Frame;
use crate::time::Timestamp;
use vstd::prelude::*;
use vstd::string::*;

verus! {

/// Pixels of a picture that is given to the models: 224 rows of 224.
pub const PIXELS: usize = 50_176;

/// Bytes of such a picture, of three colours.
pub const PICTURE_SIZE: usize = 150_528;

/// The digits of hexadecimal numbers.
pub const HEX_DIGITS: &'static str = "0123456789abcdef";

/// A digit of a hexadecimal number.
pub open spec fn hex_digit(n: int) -> char {
    HEX_DIGITS@[n]
}

/// Bytes in hexadecimal, two digits for each.
pub open spec fn hex_text(bytes: Seq<u8>) -> Seq<char> {
    Seq::new(
        2 * bytes.len(),
        |i: int|
            hex_digit(
                if i % 2 == 0 {
                    bytes[i / 2] as int / 16
                } else {
                    bytes[i / 2] as int % 16
                },
            ),
    )
}

/// The colours of a picture one after the other, where they stood pixel by
/// pixel.
pub open spec fn planes(rgb: Seq<u8>) -> Seq<u8> {
    Seq::new(PICTURE_SIZE as nat, |i: int| rgb[i % PIXELS as int * 3 + i / PIXELS as int])
}

/// Writes a hash in hexadecimal.
pub fn hash_to_hex_string(hash: &Vec<u8>) -> (r: String)
    ensures
        r@ == hex_text(hash@),
{
    let mut s: String = String::new();
    let mut i: usize = 0;
    proof {
        reveal_strlit("0123456789abcdef");
    }
    while i < hash.len()
        invariant
            i <= hash@.len(),
            s@ == hex_text(hash@.take(i as int)),
            HEX_DIGITS@.len() == 16,
        decreases hash.len() - i,
    {
        let high: usize = (hash[i] / 16) as usize;
        let low: usize = (hash[i] % 16) as usize;
        s.append(HEX_DIGITS.substring_char(high, high + 1));
        s.append(HEX_DIGITS.substring_char(low, low + 1));
        i = i + 1;
        assert(s@ =~= hex_text(hash@.take(i as int)));
    }
    assert(hash@.take(i as int) =~= hash@);
    s
}

/// Sorts the bytes of a picture by colour.
pub fn split_planes(rgb: &Vec<u8>) -> (r: Vec<u8>)
    requires
        rgb@.len() == PICTURE_SIZE,
    ensures
        r@ == planes(rgb@),
{
    let mut tensor: Vec<u8> = Vec::new();
    let mut i: usize = 0;
    while i < PICTURE_SIZE
        invariant
            i <= PICTURE_SIZE,
            rgb@.len() == PICTURE_SIZE,
            tensor@ == planes(rgb@).take(i as int),
        decreases PICTURE_SIZE - i,
    {
        tensor.push(rgb[i % PIXELS * 3 + i / PIXELS]);
        i = i + 1;
        assert(tensor@ =~= planes(rgb@).take(i as int));
    }
    assert(tensor@ =~= planes(rgb@));
    tensor
}

/// What is being done to an image.
#[derive(Clone, Copy, Debug, PartialEq, Eq, Structural)]
pub enum FrameAction {
    /// Convert it to blue, green and red pixels.
    ConvertToBgr,
    /// Take the converted pixels as a picture.
    WrapBgr,
    /// Decode it as a JPEG.
    DecodeMjpeg,
    /// Encode the picture as a JPEG.
    EncodeJpeg,
    /// Shrink the picture for the models.
    Resize,
    /// Encode the small picture as a JPEG.
    EncodePreview,
    /// Give the small picture red, green and blue pixels.
    ConvertToRgb,
    /// Compute the perceptual hash of the picture.
    ComputeHash,
}

/// What came of it.
#[derive(Debug)]
pub enum FrameOutcome {
    Done,
    Failed,
    Bytes(Vec<u8>),
}

/// A frame in the making.
#[derive(Debug)]
pub struct FrameBuilder {
    pub timestamp: Timestamp,
    /// The format of the raw image.
    pub format: FrameFormat,
    pub action: FrameAction,
    pub jpeg: Vec<u8>,
    pub inference_jpeg: Vec<u8>,
    pub inference_tensor: Vec<u8>,
}

/// How far it has come.
#[derive(Debug)]
pub enum FrameProgress {
    Working(FrameBuilder),
    Dropped,
    Finished(Frame),
}

/// The action yields bytes.
pub open spec fn yields_bytes(action: FrameAction) -> bool {
    match action {
        FrameAction::EncodeJpeg
        | FrameAction::EncodePreview
        | FrameAction::ConvertToRgb
        | FrameAction::ComputeHash => true,
        _ => false,
    }
}

/// The action can end with the outcome.
pub open spec fn can_end_with(action: FrameAction, outcome: FrameOutcome) -> bool {
    match outcome {
        FrameOutcome::Done => !yields_bytes(action),
        FrameOutcome::Failed => true,
        FrameOutcome::Bytes(bytes) => yields_bytes(action) && (action == FrameAction::ConvertToRgb
            ==> bytes@.len() == PICTURE_SIZE),
    }
}

/// Nothing was made yet.
pub open spec fn is_fresh(builder: FrameBuilder) -> bool {
    builder.action == FrameAction::ConvertToBgr
}

/// The frame that is done once its hash is there.
pub open spec fn is_frame_of(frame: Frame, builder: FrameBuilder, hash: Seq<u8>) -> bool {
    &&& frame.timestamp == builder.timestamp
    &&& frame.jpeg == builder.jpeg
    &&& frame.inference_tensor == builder.inference_tensor
    &&& frame.inference_jpeg == builder.inference_jpeg
    &&& frame.p_hash@ == hex_text(hash)
}

/// `progress` is what becomes of the builder after the outcome.
pub open spec fn follows(
    builder: FrameBuilder,
    outcome: FrameOutcome,
    progress: FrameProgress,
) -> bool {
    match (builder.action, outcome) {
        (FrameAction::ConvertToBgr, FrameOutcome::Done) => progress == FrameProgress::Working(
            FrameBuilder { action: FrameAction::WrapBgr, ..builder },
        ),
        (FrameAction::ConvertToBgr, _) => if builder.format == FrameFormat::MJPEG {
            progress == FrameProgress::Working(
                FrameBuilder { action: FrameAction::DecodeMjpeg, ..builder },
            )
        } else {
            progress is Dropped
        },
        (_, FrameOutcome::Failed) => progress is Dropped,
        (FrameAction::WrapBgr, _) | (FrameAction::DecodeMjpeg, _) => progress
            == FrameProgress::Working(
            FrameBuilder { action: FrameAction::EncodeJpeg, ..builder },
        ),
        (FrameAction::EncodeJpeg, _) => progress == FrameProgress::Working(
            FrameBuilder { action: FrameAction::Resize, jpeg: outcome->Bytes_0, ..builder },
        ),
        (FrameAction::Resize, _) => progress == FrameProgress::Working(
            FrameBuilder { action: FrameAction::EncodePreview, ..builder },
        ),
        (FrameAction::EncodePreview, _) => progress == FrameProgress::Working(
            FrameBuilder {
                action: FrameAction::ConvertToRgb,
                inference_jpeg: outcome->Bytes_0,
                ..builder
            },
        ),
        (FrameAction::ConvertToRgb, _) => progress matches FrameProgress::Working(next) && next == (
        FrameBuilder {
            action: FrameAction::ComputeHash,
            inference_tensor: next.inference_tensor,
            ..builder
        }) && next.inference_tensor@ == planes(outcome->Bytes_0@),
        (FrameAction::ComputeHash, _) => progress matches FrameProgress::Finished(frame)
            && is_frame_of(frame, builder, outcome->Bytes_0@),
    }
}

impl FrameBuilder {
    /// A raw image of which a frame is to be made.
    pub fn new(timestamp: Timestamp, format: FrameFormat) -> (r: FrameBuilder)
        ensures
            is_fresh(r),
            r.action == FrameAction::ConvertToBgr,
            r.timestamp == timestamp,
            r.format == format,
    {
        FrameBuilder {
            timestamp,
            format,
            action: FrameAction::ConvertToBgr,
            jpeg: Vec::new(),
            inference_jpeg: Vec::new(),
            inference_tensor: Vec::new(),
        }
    }

    /// Goes on after the action ended with the outcome.
    pub fn step(self, outcome: FrameOutcome) -> (r: FrameProgress)
        requires
            can_end_with(self.action, outcome),
        ensures
            follows(self, outcome, r),
    {
        let mut next = self;
        match (next.action, outcome) {
            (FrameAction::ConvertToBgr, FrameOutcome::Done) => {
                next.action = FrameAction::WrapBgr;
            },
            (FrameAction::ConvertToBgr, _) => {
                if next.format != FrameFormat::MJPEG {
                    return FrameProgress::Dropped;
                }
                next.action = FrameAction::DecodeMjpeg;
            },
            (_, FrameOutcome::Failed) => {
                return FrameProgress::Dropped;
            },
            (FrameAction::WrapBgr, _) | (FrameAction::DecodeMjpeg, _) => {
                next.action = FrameAction::EncodeJpeg;
            },
            (FrameAction::EncodeJpeg, FrameOutcome::Bytes(bytes)) => {
                next.action = FrameAction::Resize;
                next.jpeg = bytes;
            },
            (FrameAction::Resize, _) => {
                next.action = FrameAction::EncodePreview;
            },
            (FrameAction::EncodePreview, FrameOutcome::Bytes(bytes)) => {
                next.action = FrameAction::ConvertToRgb;
                next.inference_jpeg = bytes;
            },
            (FrameAction::ConvertToRgb, FrameOutcome::Bytes(bytes)) => {
                next.action = FrameAction::ComputeHash;
                next.inference_tensor = split_planes(&bytes);
            },
            (FrameAction::ComputeHash, FrameOutcome::Bytes(bytes)) => {
                return FrameProgress::Finished(
                    Frame {
                        timestamp: next.timestamp,
                        jpeg: next.jpeg,
                        inference_tensor: next.inference_tensor,
                        inference_jpeg: next.inference_jpeg,
                        p_hash: hash_to_hex_string(&bytes),
                    },
                );
            },
            _ => {},
        }
        FrameProgress::Working(next)
    }
}

/// The frame comes of the actions, taken one after the other with the given
/// outcomes.
pub open spec fn is_made_by(
    builders: Seq<FrameBuilder>,
    outcomes: Seq<FrameOutcome>,
    frame: Frame,
) -> bool {
    &&& builders.len() == outcomes.len()
    &&& outcomes.len() > 0
    &&& forall|i: int|
        0 <= i < outcomes.len() ==> can_end_with((#[trigger] builders[i]).action, outcomes[i])
    &&& forall|i: int, j: int|
        0 <= i && j == i + 1 && j < outcomes.len() ==> follows(
            #[trigger] builders[i],
            outcomes[i],
            FrameProgress::Working(#[trigger] builders[j]),
        )
    &&& follows(builders.last(), outcomes.last(), FrameProgress::Finished(frame))
}

/// A frame holds what was made of the raw image: the picture as a JPEG, the
/// small picture as a JPEG and by colours, and the hash. Every image takes the
/// same number of steps; only one that is a JPEG may fail to be converted.
pub proof fn law_frame_holds_what_was_made(
    builders: Seq<FrameBuilder>,
    outcomes: Seq<FrameOutcome>,
    frame: Frame,
)
    requires
        is_made_by(builders, outcomes, frame),
        is_fresh(builders[0]),
    ensures
        outcomes.len() == 7,
        frame.timestamp == builders[0].timestamp,
        frame.jpeg == outcomes[2]->Bytes_0,
        frame.inference_jpeg == outcomes[4]->Bytes_0,
        frame.inference_tensor@ == planes(outcomes[5]->Bytes_0@),
        frame.p_hash@ == hex_text(outcomes[6]->Bytes_0@),
        outcomes[0] is Failed ==> builders[0].format == FrameFormat::MJPEG,
        forall|i: int| 0 < i < 7 ==> !(#[trigger] outcomes[i] is Failed),
{
    let n = outcomes.len() as int;
    assert(builders.last() == builders[n - 1]);
    assert(n > 1 ==> follows(builders[0], outcomes[0], FrameProgress::Working(builders[1])));
    assert(n > 2 ==> follows(builders[1], outcomes[1], FrameProgress::Working(builders[2])));
    assert(n > 3 ==> follows(builders[2], outcomes[2], FrameProgress::Working(builders[3])));
    assert(n > 4 ==> follows(builders[3], outcomes[3], FrameProgress::Working(builders[4])));
    assert(n > 5 ==> follows(builders[4], outcomes[4], FrameProgress::Working(builders[5])));
    assert(n > 6 ==> follows(builders[5], outcomes[5], FrameProgress::Working(builders[6])));
    assert(n > 7 ==> follows(builders[6], outcomes[6], FrameProgress::Working(builders[7])));
}

/// A failure drops the image, but for the conversion of one that is a JPEG.
pub proof fn law_failures_drop_the_image(builder: FrameBuilder, progress: FrameProgress)
    requires
        follows(builder, FrameOutcome::Failed, progress),
    ensures
        progress is Dropped <==> !(is_fresh(builder) && builder.format == FrameFormat::MJPEG),
{
}

proof fn lemma_hex_digits_differ(m: int, n: int)
    requires
        0 <= m < 16,
        0 <= n < 16,
        hex_digit(m) == hex_digit(n),
    ensures
        m == n,
{
    reveal_strlit("0123456789abcdef");
}

/// Different hashes have different texts, and a text has twice
/// as many characters as the hash has bytes.
pub proof fn law_hex_text_tells_hashes_apart(a: Seq<u8>, b: Seq<u8>)
    ensures
        hex_text(a).len() == 2 * a.len(),
        hex_text(a) == hex_text(b) ==> a == b,
{
    if hex_text(a) == hex_text(b) {
        assert(hex_text(a).len() == hex_text(b).len());
        assert forall|i: int| 0 <= i < a.len() implies a[i] == b[i] by {
            assert(hex_text(a)[2 * i] == hex_text(b)[2 * i]);
            assert(hex_text(a)[2 * i + 1] == hex_text(b)[2 * i + 1]);
            lemma_hex_digits_differ(a[i] as int / 16, b[i] as int / 16);
            lemma_hex_digits_differ(a[i] as int % 16, b[i] as int % 16);
        }
        assert(a =~= b);
    }
}

/// Splitting by colour loses nothing: the colour of every pixel is still there.
pub proof fn law_planes_keep_every_pixel(rgb: Seq<u8>, pixel: int, colour: int)
    requires
        rgb.len() == PICTURE_SIZE,
        0 <= pixel < PIXELS,
        0 <= colour < 3,
    ensures
        planes(rgb)[colour * PIXELS + pixel] == rgb[pixel * 3 + colour],
{
    let i = colour * PIXELS + pixel;
    assert(i % PIXELS as int == pixel && i / PIXELS as int == colour) by {
        if colour == 0 {
        } else if colour == 1 {
        } else {
        }
    }
}

/// What a hexadecimal digit is worth: that of `0` to `9`, and from `a` on ten and more.
pub open spec fn worth_of(c: char) -> int {
    if '0' as int <= c as int <= '9' as int {
        c as int - '0' as int
    } else {
        c as int - 'a' as int + 10
    }
}

/// Each byte stands in the text of a hash as two characters of `0` to `9` and `a` to
/// `f`, the higher digit first, which are worth the byte; what is put behind a hash is
/// put behind its text.
pub proof fn law_hex_text_is_worth_its_bytes(bytes: Seq<u8>, more: Seq<u8>)
    ensures
        hex_text(bytes).len() == 2 * bytes.len(),
        forall|i: int|
            0 <= i < bytes.len() ==> 16 * worth_of(hex_text(bytes)[2 * i]) + worth_of(
                hex_text(bytes)[2 * i + 1],
            ) == #[trigger] bytes[i],
        forall|k: int|
            0 <= k < 2 * bytes.len() ==> '0' as int <= #[trigger] hex_text(bytes)[k] as int <= '9' as int
                || 'a' as int <= hex_text(bytes)[k] as int <= 'f' as int,
        hex_text(bytes + more) == hex_text(bytes) + hex_text(more),
{
    let text = hex_text(bytes);
    assert forall|i: int| 0 <= i < bytes.len() implies 16 * worth_of(hex_text(bytes)[2 * i])
        + worth_of(hex_text(bytes)[2 * i + 1]) == #[trigger] bytes[i] by {
        lemma_worth_of_digit(bytes[i] as int / 16);
        lemma_worth_of_digit(bytes[i] as int % 16);
        assert(text[2 * i] == hex_digit(bytes[i] as int / 16));
        assert(text[2 * i + 1] == hex_digit(bytes[i] as int % 16));
    }
    assert forall|k: int| 0 <= k < 2 * bytes.len() implies '0' as int <= #[trigger] hex_text(
        bytes,
    )[k] as int <= '9' as int || 'a' as int <= hex_text(bytes)[k] as int <= 'f' as int by {
        lemma_worth_of_digit(bytes[k / 2] as int / 16);
        lemma_worth_of_digit(bytes[k / 2] as int % 16);
    }
    lemma_hex_text_of_both(bytes, more);
}

proof fn lemma_worth_of_digit(n: int)
    requires
        0 <= n < 16,
    ensures
        worth_of(hex_digit(n)) == n,
        '0' as int <= hex_digit(n) as int <= '9' as int || 'a' as int <= hex_digit(n) as int
            <= 'f' as int,
{
    reveal_strlit("0123456789abcdef");
}

proof fn lemma_hex_text_of_both(bytes: Seq<u8>, more: Seq<u8>)
    ensures
        hex_text(bytes + more) == hex_text(bytes) + hex_text(more),
{
    let whole = hex_text(bytes + more);
    let parts = hex_text(bytes) + hex_text(more);
    assert forall|i: int| 0 <= i < whole.len() implies whole[i] == parts[i] by {
        if i < 2 * bytes.len() {
            assert((bytes + more)[i / 2] == bytes[i / 2]);
        } else {
            let k = i - 2 * bytes.len();
            assert(k / 2 == i / 2 - bytes.len() && k % 2 == i % 2);
            assert((bytes + more)[i / 2] == more[k / 2]);
        }
    }
    assert(whole =~= parts);
}

/// Of a picture of 224 rows of 224 pixels, first all its red is given, then all its
/// green, then all its blue, each row by row.
pub proof fn law_planes_are_colours(rgb: Seq<u8>, row: int, column: int, colour: int)
    requires
        rgb.len() == 150_528,
        0 <= row < 224,
        0 <= column < 224,
        0 <= colour < 3,
    ensures
        planes(rgb).len() == 150_528,
        planes(rgb)[50_176 * colour + 224 * row + column] == rgb[3 * (224 * row + column) + colour],
{
    let i = 50_176 * colour + 224 * row + column;
    assert(i % 50_176 == 224 * row + column && i / 50_176 == colour) by {
        if colour == 0 {
        } else if colour == 1 {
        } else {
        }
    }
}

/// Nothing but a failure drops an image, a frame is finished exactly when its hash is
/// computed, and the image keeps its time and its format until then.
pub proof fn law_only_failures_drop(
    builder: FrameBuilder,
    outcome: FrameOutcome,
    progress: FrameProgress,
)
    requires
        can_end_with(builder.action, outcome),
        follows(builder, outcome, progress),
    ensures
        progress is Dropped ==> outcome is Failed,
        progress is Finished <==> builder.action == FrameAction::ComputeHash && !(
        outcome is Failed),
        progress matches FrameProgress::Working(next) ==> next.timestamp == builder.timestamp
            && next.format == builder.format,
{
}

/// The actions that make a frame, in their order: the image is converted, or decoded
/// where it could not be; then the picture is encoded and shrunk, the small one is
/// encoded and given its colours, and the hash is computed.
pub proof fn law_frame_is_made_in_order(
    builders: Seq<FrameBuilder>,
    outcomes: Seq<FrameOutcome>,
    frame: Frame,
)
    requires
        is_made_by(builders, outcomes, frame),
        builders[0].action == FrameAction::ConvertToBgr,
    ensures
        outcomes.len() == 7,
        outcomes[0] is Failed ==> builders[1].action == FrameAction::DecodeMjpeg,
        outcomes[0] is Done ==> builders[1].action == FrameAction::WrapBgr,
        builders[2].action == FrameAction::EncodeJpeg,
        builders[3].action == FrameAction::Resize,
        builders[4].action == FrameAction::EncodePreview,
        builders[5].action == FrameAction::ConvertToRgb,
        builders[6].action == FrameAction::ComputeHash,
        frame.timestamp == builders[0].timestamp,
        outcomes[2] is Bytes && frame.jpeg@ == outcomes[2]->Bytes_0@,
        outcomes[4] is Bytes && frame.inference_jpeg@ == outcomes[4]->Bytes_0@,
        outcomes[5] is Bytes && outcomes[6] is Bytes,
        forall|i: int|
            0 <= i < 50_176 ==> {
                let rgb = outcomes[5]->Bytes_0@;
                &&& #[trigger] frame.inference_tensor@[i] == rgb[3 * i]
                &&& frame.inference_tensor@[50_176 + i] == rgb[3 * i + 1]
                &&& frame.inference_tensor@[100_352 + i] == rgb[3 * i + 2]
            },
        frame.inference_tensor@.len() == 150_528,
        frame.p_hash@.len() == 2 * outcomes[6]->Bytes_0@.len(),
        forall|i: int|
            0 <= i < outcomes[6]->Bytes_0@.len() ==> 16 * worth_of(frame.p_hash@[2 * i])
                + worth_of(frame.p_hash@[2 * i + 1]) == #[trigger] outcomes[6]->Bytes_0@[i],
{
    law_frame_holds_what_was_made(builders, outcomes, frame);
    assert(follows(builders[0], outcomes[0], FrameProgress::Working(builders[1])));
    assert(follows(builders[1], outcomes[1], FrameProgress::Working(builders[2])));
    assert(follows(builders[2], outcomes[2], FrameProgress::Working(builders[3])));
    assert(follows(builders[3], outcomes[3], FrameProgress::Working(builders[4])));
    assert(follows(builders[4], outcomes[4], FrameProgress::Working(builders[5])));
    assert(follows(builders[5], outcomes[5], FrameProgress::Working(builders[6])));
    assert(can_end_with(builders[2].action, outcomes[2]));
    assert(can_end_with(builders[4].action, outcomes[4]));
    assert(can_end_with(builders[5].action, outcomes[5]));
    assert(can_end_with(builders[6].action, outcomes[6]));
    law_hex_text_is_worth_its_bytes(outcomes[6]->Bytes_0@, Seq::empty());
    let rgb = outcomes[5]->Bytes_0@;
    assert forall|i: int| 0 <= i < 50_176 implies {
        &&& #[trigger] frame.inference_tensor@[i] == rgb[3 * i]
        &&& frame.inference_tensor@[50_176 + i] == rgb[3 * i + 1]
        &&& frame.inference_tensor@[100_352 + i] == rgb[3 * i + 2]
    } by {
        law_planes_are_colours(rgb, i / 224, i % 224, 0);
        law_planes_are_colours(rgb, i / 224, i % 224, 1);
        law_planes_are_colours(rgb, i / 224, i % 224, 2);
    }
}

} // verus!
