//! Which of the formats that a camera offers is used.

use vstd::prelude::*;

verus! {

/// How the pixels of a frame are encoded.
#[allow(clippy::upper_case_acronyms)]
#[derive(Clone, Copy, Debug, PartialEq, Eq, Structural)]
pub enum FrameFormat {
    Unknown,
    Any,
    Uncompressed,
    Compressed,
    YUYV,
    UYVY,
    RGB,
    BGR,
    MJPEG,
    GRAY8,
    GRAY16,
    BY8,
    BA81,
    SGRBG8,
    SGBRG8,
    SRGGB8,
    SBGGR8,
    Count,
}

/// A format that a camera can stream in.
#[derive(Clone, Copy, Debug, PartialEq, Eq, Structural)]
pub struct StreamFormat {
    pub width: u32,
    pub height: u32,
    pub fps: u32,
    pub format: FrameFormat,
}

/// The widest frame that is not wider than needed.
pub const PREFERRED_WIDTH: u32 = 800;

/// How well an encoding is known to work: the smaller, the better.
pub open spec fn rank(format: FrameFormat) -> int {
    match format {
        FrameFormat::Uncompressed => 0,
        FrameFormat::MJPEG => 1,
        _ => 2,
    }
}

/// The frames are not wider than needed.
pub open spec fn is_narrow(format: StreamFormat) -> bool {
    format.width <= PREFERRED_WIDTH
}

/// The format that is chosen of two: the better known encoding, then a frame
/// that is not too wide, then the wider frame, then the higher, then the slower.
pub open spec fn preferred(left: StreamFormat, right: StreamFormat) -> StreamFormat {
    if rank(left.format) != rank(right.format) {
        if rank(left.format) < rank(right.format) {
            left
        } else {
            right
        }
    } else if is_narrow(left) != is_narrow(right) {
        if is_narrow(left) {
            left
        } else {
            right
        }
    } else if left.width != right.width {
        if left.width > right.width {
            left
        } else {
            right
        }
    } else if left.height != right.height {
        if left.height > right.height {
            left
        } else {
            right
        }
    } else if left.fps < right.fps {
        left
    } else {
        right
    }
}

/// Chooses between two formats.
pub fn cmp_stream_format(left: StreamFormat, right: StreamFormat) -> (r: StreamFormat)
    ensures
        r == preferred(left, right),
{
    if left.format == FrameFormat::Uncompressed && right.format != FrameFormat::Uncompressed {
        return left;
    } else if left.format != FrameFormat::Uncompressed && right.format
        == FrameFormat::Uncompressed {
        return right;
    }
    if left.format == FrameFormat::MJPEG && right.format != FrameFormat::MJPEG {
        return left;
    } else if left.format != FrameFormat::MJPEG && right.format == FrameFormat::MJPEG {
        return right;
    }
    if left.width <= PREFERRED_WIDTH && right.width > PREFERRED_WIDTH {
        return left;
    } else if right.width <= PREFERRED_WIDTH && left.width > PREFERRED_WIDTH {
        return right;
    }
    if left.width > right.width {
        return left;
    } else if right.width > left.width {
        return right;
    }
    if left.height > right.height {
        return left;
    } else if right.height > left.height {
        return right;
    }
    if left.fps < right.fps {
        left
    } else {
        right
    }
}

/// One of the two formats is chosen.
pub proof fn law_choice_is_offered(left: StreamFormat, right: StreamFormat)
    ensures
        preferred(left, right) == left || preferred(left, right) == right,
{
}

/// No format with a better known encoding is passed over.
pub proof fn law_choice_has_best_encoding(left: StreamFormat, right: StreamFormat)
    ensures
        rank(preferred(left, right).format) <= rank(left.format),
        rank(preferred(left, right).format) <= rank(right.format),
{
}

/// Between equally well known encodings, the widest of the frames that are not
/// too wide is chosen; where both are too wide, the wider.
pub proof fn law_choice_is_widest(left: StreamFormat, right: StreamFormat)
    requires
        rank(left.format) == rank(right.format),
    ensures
        is_narrow(preferred(left, right)) <==> is_narrow(left) || is_narrow(right),
        is_narrow(left) == is_narrow(right) ==> preferred(left, right).width >= left.width
            && preferred(left, right).width >= right.width,
{
}

/// Between frames of one encoding and one width, the higher is chosen.
pub proof fn law_choice_is_highest(left: StreamFormat, right: StreamFormat)
    requires
        rank(left.format) == rank(right.format),
        left.width == right.width,
    ensures
        preferred(left, right).height >= left.height,
        preferred(left, right).height >= right.height,
{
}

/// Between frames of one encoding and one size, the slower is chosen.
pub proof fn law_choice_is_slowest(left: StreamFormat, right: StreamFormat)
    requires
        rank(left.format) == rank(right.format),
        left.width == right.width,
        left.height == right.height,
    ensures
        preferred(left, right).fps <= left.fps,
        preferred(left, right).fps <= right.fps,
{
}

/// The format that is left when each one in turn is held against the one chosen
/// so far.
pub open spec fn chosen(formats: Seq<StreamFormat>) -> StreamFormat
    recommends
        formats.len() > 0,
    decreases formats.len(),
{
    if formats.len() <= 1 {
        formats[0]
    } else {
        preferred(chosen(formats.drop_last()), formats.last())
    }
}

/// `best` is no worse than `other`: its encoding is known as well, it is not too
/// wide if the other is not, and then it is as wide, as high and as slow, each
/// counting only where the two agree in what comes before.
pub open spec fn is_no_worse_than(best: StreamFormat, other: StreamFormat) -> bool {
    &&& rank(best.format) <= rank(other.format)
    &&& rank(best.format) == rank(other.format) ==> {
        &&& is_narrow(other) ==> is_narrow(best)
        &&& is_narrow(best) == is_narrow(other) ==> best.width >= other.width
        &&& best.width == other.width ==> best.height >= other.height
        &&& best.width == other.width && best.height == other.height ==> best.fps <= other.fps
    }
}

/// Of all the formats that a camera offers, one is chosen whose encoding is the
/// best known of all, that is not too wide if any such is not, that is the widest
/// of these, of one width the highest, and of one size the slowest.
pub proof fn law_chosen_of_all(formats: Seq<StreamFormat>)
    requires
        formats.len() > 0,
    ensures
        formats.contains(chosen(formats)),
        forall|i: int|
            0 <= i < formats.len() ==> is_no_worse_than(chosen(formats), #[trigger] formats[i]),
    decreases formats.len(),
{
    if formats.len() == 1 {
        assert(formats[0] == chosen(formats));
    } else {
        let earlier = formats.drop_last();
        law_chosen_of_all(earlier);
        let k = choose|k: int| 0 <= k < earlier.len() && earlier[k] == chosen(earlier);
        assert(formats[k] == chosen(earlier));
        assert(formats[formats.len() - 1] == formats.last());
        assert forall|i: int| 0 <= i < formats.len() implies is_no_worse_than(
            chosen(formats),
            #[trigger] formats[i],
        ) by {
            if i < formats.len() - 1 {
                assert(earlier[i] == formats[i]);
            }
        }
    }
}

/// Two formats are equally good.
pub open spec fn is_as_good_as(a: StreamFormat, b: StreamFormat) -> bool {
    &&& rank(a.format) == rank(b.format)
    &&& a.width == b.width
    &&& a.height == b.height
    &&& a.fps == b.fps
}

/// The choice does not depend on which of the formats comes first.
pub proof fn law_choice_ignores_order(left: StreamFormat, right: StreamFormat)
    ensures
        is_as_good_as(preferred(left, right), preferred(right, left)),
{
}

/// An uncompressed format is chosen over any other, and after it one in JPEG
/// pictures, whatever the size and the rate.
pub proof fn law_encodings_come_first(left: StreamFormat, right: StreamFormat)
    requires
        left.format != right.format,
        left.format == FrameFormat::Uncompressed || (left.format == FrameFormat::MJPEG
            && right.format != FrameFormat::Uncompressed),
    ensures
        preferred(left, right) == left,
        preferred(right, left) == left,
{
}

/// Between formats of one encoding, or of two that are neither uncompressed nor
/// JPEG pictures, one of at most 800 points in width is chosen over a wider one;
/// between two that are both that narrow, or both wider, the wider; of one width
/// the higher; of one size the slower.
pub proof fn law_sizes_decide(left: StreamFormat, right: StreamFormat)
    requires
        left.format == right.format || (left.format != FrameFormat::Uncompressed && left.format
            != FrameFormat::MJPEG && right.format != FrameFormat::Uncompressed && right.format
            != FrameFormat::MJPEG),
        ({
            ||| left.width <= 800 && right.width > 800
            ||| (left.width <= 800 <==> right.width <= 800) && left.width > right.width
            ||| left.width == right.width && left.height > right.height
            ||| left.width == right.width && left.height == right.height && left.fps < right.fps
        }),
    ensures
        preferred(left, right) == left,
        preferred(right, left) == left,
{
}

/// Of two formats that differ in nothing that counts, the later one is chosen.
pub proof fn law_equals_give_the_later(left: StreamFormat, right: StreamFormat)
    requires
        left.format == right.format || (left.format != FrameFormat::Uncompressed && left.format
            != FrameFormat::MJPEG && right.format != FrameFormat::Uncompressed && right.format
            != FrameFormat::MJPEG),
        left.width == right.width,
        left.height == right.height,
        left.fps == right.fps,
    ensures
        preferred(left, right) == right,
{
}

} // verus!
