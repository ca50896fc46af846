//! Which of the frames that arrive during a capture are kept.

use crate::camera::Frame;
use crate::inference::InferenceResult;
use crate::listing;
use crate::store;
use crate::store::{CapturedFrame, FileContent, FrameStore};
use crate::store_laws;
use crate::time;
use crate::time::Timestamp;
use vstd::prelude::*;
use vstd::string::*;

verus! {

/// The least number of bits in which the hash of a frame must differ from that
/// of the frame kept before it.
pub const MIN_DISTANCE: u64 = 20;

/// The number of ones in the binary form of a number.
pub open spec fn ones(n: nat) -> nat
    decreases n,
{
    if n == 0 {
        0
    } else {
        n % 2 + ones(n / 2)
    }
}

/// The number of bits in which two sequences of one length differ.
pub open spec fn differing_bits(a: Seq<u8>, b: Seq<u8>) -> nat
    decreases a.len(),
{
    if a.len() == 0 || b.len() == 0 {
        0
    } else {
        differing_bits(a.drop_last(), b.drop_last()) + ones((a.last() ^ b.last()) as nat)
    }
}

/// The bytes of a text.
pub open spec fn bytes_of(s: Seq<char>) -> Seq<u8> {
    vstd::utf8::encode_utf8(s)
}

/// The number of bits in which two texts differ.
pub open spec fn text_distance(a: Seq<char>, b: Seq<char>) -> nat {
    differing_bits(bytes_of(a), bytes_of(b))
}

/// Calls `hamming::distance`, and claims of it: it returns the number of bits in
/// which the two slices differ. Slices of different lengths make it panic, and
/// ones with more bits than can be counted may.
#[verifier::external_body]
fn hamming_distance(x: &[u8], y: &[u8]) -> (r: u64)
    requires
        x@.len() == y@.len(),
        8 * x@.len() <= u64::MAX,
    ensures
        r == differing_bits(x@, y@),
{
    hamming::distance(x, y)
}

/// What a capture is waiting for.
#[derive(Debug)]
pub enum CapturePhase {
    /// To learn what time it is.
    CheckingTime,
    /// For a frame.
    Receiving,
    /// To learn what the models say of a frame that is kept, which differs from
    /// the one kept before it, if any, in that many bits.
    Inferring(Frame, Option<u64>),
    /// For a frame to be stored.
    Storing(Frame),
    /// For nothing: it is over.
    Over,
}

/// A period in which frames are captured.
#[derive(Debug)]
pub struct CaptureSession {
    pub stop_time: Timestamp,
    /// The hash of the last frame that was kept.
    pub prev_p_hash: Option<String>,
    pub phase: CapturePhase,
}

/// What happened.
#[derive(Debug)]
pub enum CaptureEvent {
    /// It is now that time.
    Time(Timestamp),
    /// A frame came from the camera.
    Frame(Frame),
    /// Some frames were missed.
    Lagged,
    /// There will be no more frames.
    Closed,
    /// The models had their say, or failed.
    Inferred(Option<Vec<InferenceResult>>),
    /// The frame was stored, or could not be.
    Stored,
}

/// What is to be done.
#[derive(Debug)]
pub enum CaptureAction {
    /// Look what time it is.
    CheckTime,
    /// Wait for a frame.
    Receive,
    /// Ask the models about the frame.
    Infer,
    /// Store the frame.
    Store(CapturedFrame),
    /// End the capture.
    End,
}

/// The two hashes can be compared.
pub open spec fn is_comparable(prev: Option<Seq<char>>, p_hash: Seq<char>) -> bool {
    prev matches Some(p) ==> bytes_of(p).len() == bytes_of(p_hash).len() && 8 * bytes_of(
        p_hash,
    ).len() <= u64::MAX
}

/// How much a frame differs from the one kept before it.
pub open spec fn distance_from(prev: Option<Seq<char>>, p_hash: Seq<char>) -> Option<u64> {
    match prev {
        Some(p) => Some(text_distance(p, p_hash) as u64),
        None => None,
    }
}

/// The frame is kept: it is the first, or differs enough from the last one kept.
pub open spec fn is_kept(prev: Option<Seq<char>>, p_hash: Seq<char>) -> bool {
    prev matches Some(p) ==> text_distance(p, p_hash) >= MIN_DISTANCE
}

/// `captured` is how a frame is to be stored.
pub open spec fn is_capture_of(
    captured: CapturedFrame,
    frame: Frame,
    distance: Option<u64>,
    inference: Option<Vec<InferenceResult>>,
) -> bool {
    &&& store::is_metadata_of(captured.entry.metadata, frame, distance)
    &&& captured.entry.inference == inference
    &&& store::write_views(captured.writes@) == store::capture_files(
        time::basename(frame.timestamp),
        inference is Some,
    )
}

/// The hash of a frame, compared with the one that was kept before it.
pub fn compare_hashes(prev: &Option<String>, p_hash: &str) -> (r: Option<u64>)
    requires
        is_comparable(listing::view_of(*prev), p_hash@),
    ensures
        r == distance_from(listing::view_of(*prev), p_hash@),
        r is Some <==> prev is Some,
        r matches Some(bits) ==> bits == text_distance(listing::view_of(*prev)->0, p_hash@),
        r matches Some(bits) ==> bits == differing_bits(
            vstd::utf8::encode_utf8((prev->0)@),
            vstd::utf8::encode_utf8(p_hash@),
        ),
{
    match prev {
        Some(p) => Some(hamming_distance(p.as_str().as_bytes(), p_hash.as_bytes())),
        None => None,
    }
}

/// Begins a capture that lasts until the given time.
pub fn start_capture(stop_time: Timestamp) -> (r: CaptureSession)
    ensures
        r.stop_time == stop_time,
        r.prev_p_hash is None,
        r.phase is CheckingTime,
        r.is_valid(),
{
    CaptureSession { stop_time, prev_p_hash: None, phase: CapturePhase::CheckingTime }
}

impl CaptureSession {
    /// The hash of the last frame that was kept.
    pub open spec fn prev(self) -> Option<Seq<char>> {
        listing::view_of(self.prev_p_hash)
    }

    /// The frame that was kept last has a time that can be told.
    pub open spec fn is_valid(self) -> bool {
        self.phase matches CapturePhase::Inferring(frame, _) ==> frame.timestamp.is_valid()
    }

    /// The event can happen now. A frame has a time that can be told, and a hash
    /// that can be compared.
    pub open spec fn can_see(self, event: CaptureEvent) -> bool {
        match self.phase {
            CapturePhase::CheckingTime => event is Time,
            CapturePhase::Receiving => match event {
                CaptureEvent::Frame(frame) => frame.timestamp.is_valid() && is_comparable(
                    self.prev(),
                    frame.p_hash@,
                ),
                CaptureEvent::Lagged | CaptureEvent::Closed => true,
                _ => false,
            },
            CapturePhase::Inferring(_, _) => event is Inferred,
            CapturePhase::Storing(_) => event is Stored,
            CapturePhase::Over => false,
        }
    }

    /// `next` and `action` are what follows on the event.
    pub open spec fn follows(
        self,
        event: CaptureEvent,
        next: CaptureSession,
        action: CaptureAction,
    ) -> bool {
        &&& next.stop_time == self.stop_time
        &&& match (self.phase, event) {
            (CapturePhase::CheckingTime, CaptureEvent::Time(now)) => {
                &&& next.prev() == self.prev()
                &&& if now.not_before(self.stop_time) {
                    next.phase is Over && action is End
                } else {
                    next.phase is Receiving && action is Receive
                }
            },
            (CapturePhase::Receiving, CaptureEvent::Frame(frame)) => if is_kept(
                self.prev(),
                frame.p_hash@,
            ) {
                &&& next.prev() == Some(frame.p_hash@)
                &&& next.phase == CapturePhase::Inferring(
                    frame,
                    distance_from(self.prev(), frame.p_hash@),
                )
                &&& action is Infer
            } else {
                &&& next.prev() == self.prev()
                &&& next.phase is CheckingTime
                &&& action is CheckTime
            },
            (CapturePhase::Receiving, CaptureEvent::Closed) => {
                &&& next.prev() == self.prev()
                &&& next.phase is Over
                &&& action is End
            },
            (CapturePhase::Inferring(frame, distance), CaptureEvent::Inferred(inference)) => {
                &&& next.prev() == self.prev()
                &&& next.phase == CapturePhase::Storing(frame)
                &&& action matches CaptureAction::Store(captured) && is_capture_of(
                    captured,
                    frame,
                    distance,
                    inference,
                )
            },
            // Frames were missed, or one was stored.
            _ => {
                &&& next.prev() == self.prev()
                &&& next.phase is CheckingTime
                &&& action is CheckTime
            },
        }
    }

    /// Goes on after the event. Kept frames are stored in `store`.
    pub fn step(self, event: CaptureEvent, store: &FrameStore) -> (r: (
        CaptureSession,
        CaptureAction,
    ))
        requires
            self.is_valid(),
            self.can_see(event),
        ensures
            self.follows(event, r.0, r.1),
            r.0.is_valid(),
    {
        let stop_time: Timestamp = self.stop_time;
        let prev: Option<String> = self.prev_p_hash;
        match (self.phase, event) {
            (CapturePhase::CheckingTime, CaptureEvent::Time(now)) => {
                if now.is_not_before(&stop_time) {
                    let phase = CapturePhase::Over;
                    (CaptureSession { stop_time, prev_p_hash: prev, phase }, CaptureAction::End)
                } else {
                    let phase = CapturePhase::Receiving;
                    (CaptureSession { stop_time, prev_p_hash: prev, phase }, CaptureAction::Receive)
                }
            },
            (CapturePhase::Receiving, CaptureEvent::Frame(frame)) => {
                let distance: Option<u64> = compare_hashes(&prev, &frame.p_hash);
                if let Some(bits) = distance {
                    if bits < MIN_DISTANCE {
                        let phase = CapturePhase::CheckingTime;
                        return (
                            CaptureSession { stop_time, prev_p_hash: prev, phase },
                            CaptureAction::CheckTime,
                        );
                    }
                }
                let p_hash: String = frame.p_hash.clone();
                let phase = CapturePhase::Inferring(frame, distance);
                (
                    CaptureSession { stop_time, prev_p_hash: Some(p_hash), phase },
                    CaptureAction::Infer,
                )
            },
            (CapturePhase::Receiving, CaptureEvent::Closed) => {
                let phase = CapturePhase::Over;
                (CaptureSession { stop_time, prev_p_hash: prev, phase }, CaptureAction::End)
            },
            (CapturePhase::Inferring(frame, distance), CaptureEvent::Inferred(inference)) => {
                let captured = store.write_frame_capture_data(&frame, distance, inference);
                let phase = CapturePhase::Storing(frame);
                (
                    CaptureSession { stop_time, prev_p_hash: prev, phase },
                    CaptureAction::Store(captured),
                )
            },
            _ => {
                let phase = CapturePhase::CheckingTime;
                (CaptureSession { stop_time, prev_p_hash: prev, phase }, CaptureAction::CheckTime)
            },
        }
    }
}

/// A capture never takes a frame at or after its end: after each look at the
/// time it waits for at most one frame.
pub proof fn law_capture_ends_in_time(
    session: CaptureSession,
    event: CaptureEvent,
    next: CaptureSession,
    action: CaptureAction,
)
    requires
        session.can_see(event),
        session.follows(event, next, action),
    ensures
        action is Receive ==> (event matches CaptureEvent::Time(now) && !now.not_before(
            session.stop_time,
        )),
        next.phase is Receiving <==> action is Receive,
        event matches CaptureEvent::Time(now) && now.not_before(session.stop_time)
            ==> next.phase is Over,
{
}

/// A frame is stored only if it was kept, and then with how much it differs from
/// the frame kept before it.
pub proof fn law_kept_frames_are_stored(
    session: CaptureSession,
    frame: Frame,
    inference: Option<Vec<InferenceResult>>,
    asked: CaptureSession,
    stored: CaptureSession,
    first: CaptureAction,
    second: CaptureAction,
)
    requires
        session.phase is Receiving,
        session.can_see(CaptureEvent::Frame(frame)),
        session.follows(CaptureEvent::Frame(frame), asked, first),
        is_kept(session.prev(), frame.p_hash@),
        asked.follows(CaptureEvent::Inferred(inference), stored, second),
    ensures
        second matches CaptureAction::Store(captured) && is_capture_of(
            captured,
            frame,
            distance_from(session.prev(), frame.p_hash@),
            inference,
        ),
        stored.prev() == Some(frame.p_hash@),
{
}

/// The frames that a capture keeps of those that arrive, by their places.
pub open spec fn kept(hashes: Seq<Seq<char>>) -> Seq<int>
    decreases hashes.len(),
{
    if hashes.len() == 0 {
        Seq::empty()
    } else {
        let front = hashes.drop_last();
        let earlier = kept(front);
        let prev = if earlier.len() == 0 {
            None
        } else {
            Some(front[earlier.last()])
        };
        if is_kept(prev, hashes.last()) {
            earlier.push(hashes.len() - 1)
        } else {
            earlier
        }
    }
}

/// A capture keeps its first frame, keeps the others in their order, and none of
/// them looks like the one kept before it: they differ in at least the required
/// number of bits.
pub proof fn law_kept_frames_differ(hashes: Seq<Seq<char>>)
    ensures
        hashes.len() > 0 ==> kept(hashes).len() > 0 && kept(hashes)[0] == 0,
        forall|k: int|
            0 <= k < kept(hashes).len() ==> 0 <= #[trigger] kept(hashes)[k] < hashes.len(),
        forall|k: int, l: int|
            0 <= k < l < kept(hashes).len() ==> #[trigger] kept(hashes)[k] < #[trigger] kept(
                hashes,
            )[l],
        forall|k: int, l: int|
            0 <= k && l == k + 1 && l < kept(hashes).len() ==> differing_bits(
                vstd::utf8::encode_utf8(hashes[#[trigger] kept(hashes)[k]]),
                vstd::utf8::encode_utf8(hashes[#[trigger] kept(hashes)[l]]),
            ) >= 20,
    decreases hashes.len(),
{
    if hashes.len() > 0 {
        let front = hashes.drop_last();
        let earlier = kept(front);
        law_kept_frames_differ(front);
        assert forall|k: int, l: int|
            0 <= k && l == k + 1 && l < kept(hashes).len() implies differing_bits(
            vstd::utf8::encode_utf8(hashes[#[trigger] kept(hashes)[k]]),
            vstd::utf8::encode_utf8(hashes[#[trigger] kept(hashes)[l]]),
        ) >= 20 by {
            if l < earlier.len() {
                assert(kept(hashes)[k] == earlier[k] && kept(hashes)[l] == earlier[l]);
                assert(front[earlier[k]] == hashes[earlier[k]]);
                assert(front[earlier[l]] == hashes[earlier[l]]);
            }
        }
    }
}

/// The hash of the last of the kept frames.
pub open spec fn last_kept(hashes: Seq<Seq<char>>) -> Option<Seq<char>> {
    if kept(hashes).len() == 0 {
        None
    } else {
        Some(hashes[kept(hashes).last()])
    }
}

/// A session that remembers the last kept of the frames that came still does so
/// after the next frame, and asks the models exactly about the frames that are
/// kept.
pub proof fn law_session_remembers_last_kept(
    hashes: Seq<Seq<char>>,
    session: CaptureSession,
    frame: Frame,
    next: CaptureSession,
    action: CaptureAction,
)
    requires
        session.phase is Receiving,
        session.prev() == last_kept(hashes),
        session.follows(CaptureEvent::Frame(frame), next, action),
    ensures
        next.prev() == last_kept(hashes.push(frame.p_hash@)),
        action is Infer <==> kept(hashes.push(frame.p_hash@)) == kept(hashes).push(
            hashes.len() as int,
        ),
        !(action is Infer) ==> kept(hashes.push(frame.p_hash@)) == kept(hashes),
{
    let more = hashes.push(frame.p_hash@);
    assert(more.drop_last() =~= hashes);
    law_kept_frames_differ(hashes);
    assert(kept(hashes).push(hashes.len() as int).len() != kept(hashes).len());
}

/// A frame that is dropped looks like the one kept before it.
pub proof fn law_dropped_frames_are_alike(hashes: Seq<Seq<char>>)
    requires
        hashes.len() > 0,
        kept(hashes) == kept(hashes.drop_last()),
    ensures
        kept(hashes).len() > 0,
        differing_bits(
            vstd::utf8::encode_utf8(hashes[kept(hashes).last()]),
            vstd::utf8::encode_utf8(hashes.last()),
        ) < 20,
{
    let front = hashes.drop_last();
    law_kept_frames_differ(hashes);
    law_kept_frames_differ(front);
    let last = kept(front)[kept(front).len() - 1];
    assert(front[last] == hashes[last]);
    assert(kept(front).push(hashes.len() - 1).len() != kept(front).len());
}

proof fn lemma_no_differing_bits(a: Seq<u8>)
    ensures
        differing_bits(a, a) == 0,
    decreases a.len(),
{
    if a.len() > 0 {
        lemma_no_differing_bits(a.drop_last());
        let b = a.last();
        assert(b ^ b == 0u8) by (bit_vector);
    }
}

/// A frame with the hash of the last one kept is dropped.
pub proof fn law_same_hash_is_dropped(p_hash: Seq<char>)
    ensures
        text_distance(p_hash, p_hash) == 0,
        !is_kept(Some(p_hash), p_hash),
{
    lemma_no_differing_bits(bytes_of(p_hash));
}

proof fn lemma_differing_bits_symmetric(a: Seq<u8>, b: Seq<u8>)
    ensures
        differing_bits(a, b) == differing_bits(b, a),
    decreases a.len(),
{
    if a.len() > 0 && b.len() > 0 {
        lemma_differing_bits_symmetric(a.drop_last(), b.drop_last());
        let x = a.last();
        let y = b.last();
        assert(x ^ y == y ^ x) by (bit_vector);
    }
}

/// How much two hashes differ does not depend on which came first.
pub proof fn law_distance_is_symmetric(a: Seq<char>, b: Seq<char>)
    ensures
        text_distance(a, b) == text_distance(b, a),
{
    lemma_differing_bits_symmetric(bytes_of(a), bytes_of(b));
}

/// The bit at a place in a sequence of bytes, the lowest of each byte first.
pub open spec fn bit_at(s: Seq<u8>, n: int) -> int {
    let byte = s[n / 8] as int;
    let k = n % 8;
    if k == 0 {
        byte % 2
    } else if k == 1 {
        byte / 2 % 2
    } else if k == 2 {
        byte / 4 % 2
    } else if k == 3 {
        byte / 8 % 2
    } else if k == 4 {
        byte / 16 % 2
    } else if k == 5 {
        byte / 32 % 2
    } else if k == 6 {
        byte / 64 % 2
    } else {
        byte / 128 % 2
    }
}

/// At how many of the first `n` places the bits of two sequences are not the same.
pub open spec fn differing_places(a: Seq<u8>, b: Seq<u8>, n: nat) -> nat
    decreases n,
{
    if n == 0 {
        0
    } else if bit_at(a, n - 1) != bit_at(b, n - 1) {
        differing_places(a, b, (n - 1) as nat) + 1
    } else {
        differing_places(a, b, (n - 1) as nat)
    }
}

proof fn lemma_ones_of_byte(x: u8)
    ensures
        ones(x as nat) == x % 2 + x / 2 % 2 + x / 4 % 2 + x / 8 % 2 + x / 16 % 2 + x / 32 % 2 + x
            / 64 % 2 + x / 128 % 2,
{
    let n1 = x as nat / 2;
    let n2 = n1 / 2;
    let n3 = n2 / 2;
    let n4 = n3 / 2;
    let n5 = n4 / 2;
    let n6 = n5 / 2;
    let n7 = n6 / 2;
    lemma_ones_of_half(x as nat);
    lemma_ones_of_half(n1);
    lemma_ones_of_half(n2);
    lemma_ones_of_half(n3);
    lemma_ones_of_half(n4);
    lemma_ones_of_half(n5);
    lemma_ones_of_half(n6);
    lemma_ones_of_half(n7);
    assert(n7 / 2 == 0);
    assert(ones(0) == 0);
    assert(n2 == x / 4 && n3 == x / 8 && n4 == x / 16 && n5 == x / 32 && n6 == x / 64 && n7 == x
        / 128);
}

proof fn lemma_ones_of_half(n: nat)
    ensures
        ones(n) == n % 2 + ones(n / 2),
{
}

proof fn lemma_bits_of_xor(x: u8, y: u8)
    ensures
        (x ^ y) % 2 == (if x % 2 != y % 2 { 1u8 } else { 0u8 }),
        (x ^ y) / 2 % 2 == (if x / 2 % 2 != y / 2 % 2 { 1u8 } else { 0u8 }),
        (x ^ y) / 4 % 2 == (if x / 4 % 2 != y / 4 % 2 { 1u8 } else { 0u8 }),
        (x ^ y) / 8 % 2 == (if x / 8 % 2 != y / 8 % 2 { 1u8 } else { 0u8 }),
        (x ^ y) / 16 % 2 == (if x / 16 % 2 != y / 16 % 2 { 1u8 } else { 0u8 }),
        (x ^ y) / 32 % 2 == (if x / 32 % 2 != y / 32 % 2 { 1u8 } else { 0u8 }),
        (x ^ y) / 64 % 2 == (if x / 64 % 2 != y / 64 % 2 { 1u8 } else { 0u8 }),
        (x ^ y) / 128 % 2 == (if x / 128 % 2 != y / 128 % 2 { 1u8 } else { 0u8 }),
{
    assert((x ^ y) % 2 == (if x % 2 != y % 2 { 1u8 } else { 0u8 })) by (bit_vector);
    assert((x ^ y) / 2 % 2 == (if x / 2 % 2 != y / 2 % 2 { 1u8 } else { 0u8 })) by (bit_vector);
    assert((x ^ y) / 4 % 2 == (if x / 4 % 2 != y / 4 % 2 { 1u8 } else { 0u8 })) by (bit_vector);
    assert((x ^ y) / 8 % 2 == (if x / 8 % 2 != y / 8 % 2 { 1u8 } else { 0u8 })) by (bit_vector);
    assert((x ^ y) / 16 % 2 == (if x / 16 % 2 != y / 16 % 2 { 1u8 } else { 0u8 }))
        by (bit_vector);
    assert((x ^ y) / 32 % 2 == (if x / 32 % 2 != y / 32 % 2 { 1u8 } else { 0u8 }))
        by (bit_vector);
    assert((x ^ y) / 64 % 2 == (if x / 64 % 2 != y / 64 % 2 { 1u8 } else { 0u8 }))
        by (bit_vector);
    assert((x ^ y) / 128 % 2 == (if x / 128 % 2 != y / 128 % 2 { 1u8 } else { 0u8 }))
        by (bit_vector);
}

proof fn lemma_places_of_front(a: Seq<u8>, b: Seq<u8>, n: nat)
    requires
        a.len() == b.len(),
        a.len() > 0,
        n <= 8 * (a.len() - 1),
    ensures
        differing_places(a, b, n) == differing_places(a.drop_last(), b.drop_last(), n),
    decreases n,
{
    if n > 0 {
        lemma_places_of_front(a, b, (n - 1) as nat);
        let i = (n - 1) as int / 8;
        assert(0 <= i < a.len() - 1);
        assert(a.drop_last()[i] == a[i] && b.drop_last()[i] == b[i]);
    }
}

/// The distance of two sequences of bytes is the number of places at which their
/// bits are not the same, whatever that number is.
pub proof fn law_distance_counts_places(a: Seq<u8>, b: Seq<u8>)
    requires
        a.len() == b.len(),
    ensures
        differing_bits(a, b) == differing_places(a, b, 8 * a.len()),
    decreases a.len(),
{
    if a.len() > 0 {
        let x = a.last();
        let y = b.last();
        let n = (8 * (a.len() - 1)) as nat;
        law_distance_counts_places(a.drop_last(), b.drop_last());
        lemma_places_of_front(a, b, n);
        lemma_ones_of_byte(x ^ y);
        lemma_bits_of_xor(x, y);
        reveal_with_fuel(differing_places, 9);
        let i = a.len() - 1;
        assert(a[i] == x && b[i] == y);
        assert(n as int / 8 == i && (n + 1) as int / 8 == i && (n + 2) as int / 8 == i && (n
            + 3) as int / 8 == i && (n + 4) as int / 8 == i && (n + 5) as int / 8 == i && (n
            + 6) as int / 8 == i && (n + 7) as int / 8 == i);
        assert(n as int % 8 == 0 && (n + 1) as int % 8 == 1 && (n + 2) as int % 8 == 2 && (n
            + 3) as int % 8 == 3 && (n + 4) as int % 8 == 4 && (n + 5) as int % 8 == 5 && (n
            + 6) as int % 8 == 6 && (n + 7) as int % 8 == 7);
    }
}

/// A frame is compared bit by bit: it is kept if it is the first, or if its hash
/// and the hash of the last frame kept have different bits at 20 places or more,
/// and the distance that is noted is the number of these places.
pub proof fn law_kept_by_number_of_places(prev: Seq<char>, p_hash: Seq<char>)
    requires
        is_comparable(Some(prev), p_hash),
    ensures
        ({
            let a = vstd::utf8::encode_utf8(prev);
            let b = vstd::utf8::encode_utf8(p_hash);
            let places = differing_places(a, b, 8 * a.len());
            &&& is_kept(Some(prev), p_hash) <==> places >= 20
            &&& distance_from(Some(prev), p_hash) matches Some(bits) && bits == places
            &&& is_kept(None, p_hash)
            &&& distance_from(None, p_hash) is None
        }),
{
    let a = vstd::utf8::encode_utf8(prev);
    let b = vstd::utf8::encode_utf8(p_hash);
    law_distance_counts_places(a, b);
    lemma_places_are_bounded(a, b, 8 * a.len());
}

proof fn lemma_places_are_bounded(a: Seq<u8>, b: Seq<u8>, n: nat)
    ensures
        differing_places(a, b, n) <= n,
    decreases n,
{
    if n > 0 {
        lemma_places_are_bounded(a, b, (n - 1) as nat);
    }
}

/// What a session remembers and does: it looks at the time before each frame and
/// ends at its stop time or with the stream; missed frames change nothing; a frame
/// is kept if it is the first or its hash differs from that of the last one kept
/// at 20 places or more, and is then the last one kept; what is stored of it is
/// its own name, hash and time, the number of places, and what the models said.
pub proof fn law_capture_keeps_what_differs(
    session: CaptureSession,
    event: CaptureEvent,
    next: CaptureSession,
    action: CaptureAction,
)
    requires
        session.can_see(event),
        session.follows(event, next, action),
    ensures
        next.stop_time == session.stop_time,
        (session.phase is CheckingTime && event is Time) ==> {
            let now = event->Time_0;
            let is_past = now.secs > session.stop_time.secs || (now.secs == session.stop_time.secs
                && now.nanos >= session.stop_time.nanos);
            &&& listing::view_of(next.prev_p_hash) == listing::view_of(session.prev_p_hash)
            &&& is_past ==> action is End && next.phase is Over
            &&& !is_past ==> action is Receive && next.phase is Receiving
        },
        (session.phase is Receiving && event is Lagged) ==> action is CheckTime
            && next.phase is CheckingTime && listing::view_of(next.prev_p_hash)
            == listing::view_of(session.prev_p_hash),
        (session.phase is Receiving && event is Closed) ==> action is End && next.phase is Over,
        (session.phase is Receiving && event is Frame && session.prev_p_hash is None) ==> {
            &&& action is Infer
            &&& next.phase == CapturePhase::Inferring(event->Frame_0, None)
            &&& next.prev_p_hash matches Some(p) && p@ == (event->Frame_0).p_hash@
        },
        (session.phase is Receiving && event is Frame && session.prev_p_hash is Some) ==> {
            let frame = event->Frame_0;
            let a = vstd::utf8::encode_utf8((session.prev_p_hash->0)@);
            let b = vstd::utf8::encode_utf8(frame.p_hash@);
            let places = differing_places(a, b, 8 * a.len());
            &&& places >= 20 ==> {
                &&& action is Infer
                &&& next.phase == CapturePhase::Inferring(frame, Some(places as u64))
                &&& places <= u64::MAX
                &&& next.prev_p_hash matches Some(p) && p@ == frame.p_hash@
            }
            &&& places < 20 ==> {
                &&& action is CheckTime
                &&& next.phase is CheckingTime
                &&& next.prev_p_hash matches Some(p) && p@ == (session.prev_p_hash->0)@
            }
        },
        (session.phase is Inferring && event is Inferred) ==> {
            let frame = session.phase->Inferring_0;
            &&& next.phase == CapturePhase::Storing(frame)
            &&& listing::view_of(next.prev_p_hash) == listing::view_of(session.prev_p_hash)
            &&& action matches CaptureAction::Store(captured) && {
                &&& captured.entry.metadata.name@ == time::basename(frame.timestamp)
                &&& captured.entry.metadata.p_hash@ == frame.p_hash@
                &&& captured.entry.metadata.p_hash_distance == session.phase->Inferring_1
                &&& captured.entry.inference == event->Inferred_0
                &&& captured.writes@.len() == if event->Inferred_0 is Some {
                    4int
                } else {
                    3int
                }
                &&& captured.writes@[0].file_name@ == time::basename(frame.timestamp) + ".json"@
                &&& captured.writes@[0].content == FileContent::Metadata
                &&& captured.writes@[1].file_name@ == time::basename(frame.timestamp) + ".jpg"@
                &&& captured.writes@[1].content == FileContent::Picture
                &&& captured.writes@[2].file_name@ == time::basename(frame.timestamp) + ".224.jpg"@
                &&& captured.writes@[2].content == FileContent::Preview
                &&& event->Inferred_0 is Some ==> captured.writes@[3].file_name@ == time::basename(
                    frame.timestamp,
                ) + ".inference.json"@ && captured.writes@[3].content == FileContent::Inference
                &&& frame.timestamp.is_valid() ==> captured.entry.metadata.timestamp * 1_000_000
                    <= frame.timestamp.secs * 1_000_000_000 + frame.timestamp.nanos < (
                captured.entry.metadata.timestamp + 1) * 1_000_000
            }
        },
        (session.phase is Storing && event is Stored) ==> action is CheckTime
            && next.phase is CheckingTime && listing::view_of(next.prev_p_hash)
            == listing::view_of(session.prev_p_hash),
{
    if session.phase is Receiving && event is Frame && session.prev_p_hash is Some {
        law_kept_by_number_of_places((session.prev_p_hash->0)@, (event->Frame_0).p_hash@);
        assert(next.prev_p_hash is Some);
    }
    if session.phase is Inferring && event is Inferred {
        let captured = action->Store_0;
        let frame = session.phase->Inferring_0;
        let seen = store::write_views(captured.writes@);
        store_laws::law_writes_are_seen_as_they_are(captured.writes@);
        store_laws::law_files_of_a_frame(time::basename(frame.timestamp));
        assert(seen.len() == captured.writes@.len());
        assert(seen[0].0 == captured.writes@[0].file_name@);
        assert(seen[1].0 == captured.writes@[1].file_name@);
        assert(seen[2].0 == captured.writes@[2].file_name@);
        assert(seen.len() == 4 ==> seen[3].0 == captured.writes@[3].file_name@);
        if frame.timestamp.is_valid() {
            time::law_millis_are_whole(frame.timestamp);
        }
    }
}

} // verus!
