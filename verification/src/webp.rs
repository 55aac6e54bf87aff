//! Lossless animated WebP from RGB frames. Frames are stamped `0, s, 2s, …`
//! milliseconds apart (`s` the frame spacing, at least 1), saturating at
//! `i32::MAX`; the animation encoder of the `webp_animation` crate refuses a
//! frame whose timestamp is not above the previous one.

use vstd::prelude::*;
use webp_animation::{ColorMode, Encoder, EncoderOptions, EncodingConfig, EncodingType};

verus! {

#[verifier::external_type_specification]
#[verifier::external_body]
pub struct ExWebpAnimEncoder(webp_animation::Encoder);

#[verifier::external_type_specification]
#[verifier::external_body]
pub struct ExWebpAnimError(webp_animation::Error);

/// The frames an animation encoder has accepted, oldest first: each frame's
/// timestamp (ms) and its pixel bytes.
pub uninterp spec fn webp_frames(encoder: Encoder) -> Seq<(i32, Seq<u8>)>;

/// Width and height, in pixels, the encoder was made for.
pub uninterp spec fn webp_dimensions(encoder: Encoder) -> (u32, u32);

/// The lossless animated WebP file libwebp assembles, at the settings this
/// crate makes its encoders with (lossless, RGB input), from `frames` on a
/// `width × height` canvas, the last frame lasting until `end_ms`.
pub uninterp spec fn webp_file(frames: Seq<(i32, Seq<u8>)>, end_ms: i32, width: u32, height: u32) -> Seq<u8>;

/// The timestamps of `frames`, in order.
pub open spec fn frame_stamps(frames: Seq<(i32, Seq<u8>)>) -> Seq<i32> {
    Seq::new(frames.len(), |i: int| frames[i].0)
}

/// The timestamp a new frame must exceed: that of the last accepted frame,
/// or -1 before the first one.
pub open spec fn previous_timestamp(frames: Seq<(i32, Seq<u8>)>) -> int {
    if frames.len() == 0 {
        -1
    } else {
        frames.last().0 as int
    }
}

/// `webp_animation::Encoder::new_with_options` with lossless encoding and
/// RGB input (3 bytes per pixel). The crate refuses a zero width or height;
/// a new encoder holds no frame and is made for the given size. libwebp may
/// refuse other sizes too (size limit, allocation), which is left unsaid.
#[verifier::external_body]
fn webp_new_lossless_rgb(width: u32, height: u32) -> (r: Result<Encoder, webp_animation::Error>)
    ensures
        width == 0 || height == 0 ==> r is Err,
        r matches Ok(e) ==> webp_frames(e) == Seq::<(i32, Seq<u8>)>::empty() && webp_dimensions(e) == (
        width,
        height,
        ),
{
    Encoder::new_with_options(
        (width, height),
        EncoderOptions {
            encoding_config: Some(EncodingConfig { encoding_type: EncodingType::Lossless, ..Default::default() }),
            color_mode: ColorMode::Rgb,
            ..Default::default()
        },
    )
}

/// `webp_animation::Encoder::add_frame`. The crate refuses a timestamp not
/// above the previous one and a frame whose length is not
/// `3 · width · height`, and then leaves its record of frames as it was; an
/// accepted frame is appended with its timestamp and bytes. libwebp may
/// refuse a frame for reasons of its own (allocation), which is left unsaid.
#[verifier::external_body]
fn webp_add_frame(encoder: &mut Encoder, data: &[u8], timestamp: i32) -> (r: Result<(), webp_animation::Error>)
    ensures
        webp_dimensions(*final(encoder)) == webp_dimensions(*old(encoder)),
        r is Ok ==> webp_frames(*final(encoder)) == webp_frames(*old(encoder)).push((timestamp, data@)),
        r is Err ==> webp_frames(*final(encoder)) == webp_frames(*old(encoder)),
        timestamp <= previous_timestamp(webp_frames(*old(encoder))) ==> r is Err,
        data@.len() != 3 * webp_dimensions(*old(encoder)).0 * webp_dimensions(*old(encoder)).1 ==> r is Err,
{
    encoder.add_frame(data, timestamp)
}

/// `webp_animation::Encoder::finalize`, with the assembled file copied out.
/// The crate refuses when no frame was added or when the end timestamp is
/// below the last frame's; otherwise the file is libwebp's assembly of the
/// frames, which may still fail for reasons of its own (allocation).
#[verifier::external_body]
fn webp_finalize(encoder: Encoder, timestamp: i32) -> (r: Result<Vec<u8>, webp_animation::Error>)
    ensures
        webp_frames(encoder).len() == 0 ==> r is Err,
        timestamp < previous_timestamp(webp_frames(encoder)) ==> r is Err,
        r matches Ok(bytes) ==> bytes@ == webp_file(
            webp_frames(encoder),
            timestamp,
            webp_dimensions(encoder).0,
            webp_dimensions(encoder).1,
        ),
{
    encoder.finalize(timestamp).map(|data| data.to_vec())
}

/// An error from the animation encoder.
#[derive(Debug)]
pub enum WebpError {
    Encoder(webp_animation::Error),
}

/// `i32` addition that stops at `i32::MAX` (both sides non-negative).
pub open spec fn saturating_sum(a: int, b: int) -> int {
    if a + b > i32::MAX {
        i32::MAX as int
    } else {
        a + b
    }
}

/// Timestamp of frame `k` at spacing `s`: `k · s`, saturated.
pub open spec fn frame_timestamp(k: int, spacing: int) -> int {
    if k * spacing > i32::MAX {
        i32::MAX as int
    } else {
        k * spacing
    }
}

/// Lossless animation encoder stamping successive frames `frame_spacing_ms`
/// milliseconds apart.
pub struct WebpEncoder {
    encoder: Encoder,
    next_timestamp_ms: i32,
    frame_spacing_ms: i32,
}

impl WebpEncoder {
    /// The frames added so far: timestamp and pixel bytes of each.
    pub closed spec fn frames(&self) -> Seq<(i32, Seq<u8>)> {
        webp_frames(self.encoder)
    }

    /// Timestamps of the frames added so far.
    pub open spec fn timestamps(&self) -> Seq<i32> {
        frame_stamps(self.frames())
    }

    /// Width and height of the frames.
    pub closed spec fn dimensions(&self) -> (u32, u32) {
        webp_dimensions(self.encoder)
    }

    /// Timestamp the next frame gets.
    pub closed spec fn next_timestamp(&self) -> int {
        self.next_timestamp_ms as int
    }

    /// Milliseconds between successive frames.
    pub closed spec fn frame_spacing(&self) -> int {
        self.frame_spacing_ms as int
    }

    /// Frame `k` is stamped `k · s` (saturated), only the last frame may sit
    /// at `i32::MAX`, and the next frame gets `len · s` (saturated).
    pub closed spec fn wf(&self) -> bool {
        let ts = self.timestamps();
        let s = self.frame_spacing_ms as int;
        &&& s >= 1
        &&& self.next_timestamp_ms == frame_timestamp(ts.len() as int, s)
        &&& forall|k: int| 0 <= k < ts.len() ==> #[trigger] ts[k] == frame_timestamp(k, s)
        &&& forall|k: int| 0 <= k < ts.len() - 1 ==> #[trigger] ts[k] < i32::MAX
    }

    /// Encoder with one millisecond between frames.
    pub fn new(width: u32, height: u32) -> (r: Result<Self, WebpError>)
        ensures
            width == 0 || height == 0 ==> r is Err,
            r matches Ok(e) ==> {
                &&& e.wf()
                &&& e.frames() == Seq::<(i32, Seq<u8>)>::empty()
                &&& e.next_timestamp() == 0
                &&& e.frame_spacing() == 1
                &&& e.dimensions() == (width, height)
            },
    {
        Self::with_frame_spacing(width, height, 1)
    }

    /// Lossless RGB encoder for `width × height` frames, `frame_spacing_ms`
    /// apart; the first frame is stamped 0.
    pub fn with_frame_spacing(width: u32, height: u32, frame_spacing_ms: i32) -> (r: Result<Self, WebpError>)
        requires
            frame_spacing_ms >= 1,
        ensures
            width == 0 || height == 0 ==> r is Err,
            r matches Ok(e) ==> {
                &&& e.wf()
                &&& e.frames() == Seq::<(i32, Seq<u8>)>::empty()
                &&& e.next_timestamp() == 0
                &&& e.frame_spacing() == frame_spacing_ms
                &&& e.dimensions() == (width, height)
            },
    {
        match webp_new_lossless_rgb(width, height) {
            Ok(encoder) => {
                let e = WebpEncoder { encoder, next_timestamp_ms: 0, frame_spacing_ms };
                assert(frame_timestamp(0, frame_spacing_ms as int) == 0);
                assert(e.timestamps().len() == 0);
                assert(e.wf());
                Ok(e)
            },
            Err(e) => Err(WebpError::Encoder(e)),
        }
    }

    /// Hands `rgb` to the encoder as a frame at the next timestamp and, when
    /// it is accepted, moves the next timestamp on by the spacing
    /// (saturating). A frame whose length is not `3 · width · height`, or one
    /// after a frame already stamped `i32::MAX`, is refused and nothing
    /// changes.
    pub fn add_frame(&mut self, rgb: &[u8]) -> (r: Result<(), WebpError>)
        requires
            old(self).wf(),
        ensures
            final(self).wf(),
            final(self).frame_spacing() == old(self).frame_spacing(),
            final(self).dimensions() == old(self).dimensions(),
            r is Ok ==> final(self).frames() == old(self).frames().push(
                (old(self).next_timestamp() as i32, rgb@),
            ),
            r is Ok ==> final(self).next_timestamp() == saturating_sum(
                old(self).next_timestamp(),
                old(self).frame_spacing(),
            ),
            r is Err ==> final(self).frames() == old(self).frames() && final(self).next_timestamp()
                == old(self).next_timestamp(),
            rgb@.len() != 3 * old(self).dimensions().0 * old(self).dimensions().1 ==> r is Err,
            old(self).timestamps().len() > 0 && old(self).timestamps().last() == i32::MAX ==> r is Err,
    {
        let ts = self.next_timestamp_ms;
        let ghost before = self.timestamps();
        let ghost s = self.frame_spacing_ms as int;
        let ghost n = before.len() as int;
        match webp_add_frame(&mut self.encoder, rgb, ts) {
            Ok(()) => {
                self.next_timestamp_ms = match ts.checked_add(self.frame_spacing_ms) {
                    Some(next) => next,
                    None => i32::MAX,
                };
                proof {
                    lemma_next_frame_timestamp(n, s);
                    if n > 0 {
                        lemma_frame_timestamp_monotone(n - 1, n, s);
                    }
                    assert(self.timestamps() =~= before.push(ts));
                    let after = self.timestamps();
                    assert forall|k: int| 0 <= k < after.len() implies #[trigger] after[k] == frame_timestamp(
                        k,
                        s,
                    ) by {
                        if k < n {
                            assert(after[k] == before[k]);
                        }
                    }
                    assert forall|k: int| 0 <= k < after.len() - 1 implies #[trigger] after[k] < i32::MAX by {
                        if k < n - 1 {
                            assert(after[k] == before[k]);
                        } else {
                            assert(after[k] == before[n - 1]);
                        }
                    }
                }
                Ok(())
            },
            Err(e) => Err(WebpError::Encoder(e)),
        }
    }

    /// Assembles the animation from the frames added, the last frame lasting
    /// until the next timestamp, so that the clip lasts `n · s` milliseconds
    /// for `n` frames at spacing `s` (saturated at `i32::MAX`). Refused when
    /// no frame was added.
    pub fn finalize(self) -> (r: Result<Vec<u8>, WebpError>)
        requires
            self.wf(),
        ensures
            self.frames().len() == 0 ==> r is Err,
            r matches Ok(bytes) ==> bytes@ == webp_file(
                self.frames(),
                frame_timestamp(self.frames().len() as int, self.frame_spacing()) as i32,
                self.dimensions().0,
                self.dimensions().1,
            ),
    {
        proof {
            let n = self.timestamps().len() as int;
            if n > 0 {
                lemma_frame_timestamp_monotone(n - 1, n, self.frame_spacing_ms as int);
            }
        }
        match webp_finalize(self.encoder, self.next_timestamp_ms) {
            Ok(bytes) => Ok(bytes),
            Err(e) => Err(WebpError::Encoder(e)),
        }
    }
}

/// Frame timestamps never decrease with the frame number.
proof fn lemma_frame_timestamp_monotone(j: int, k: int, s: int)
    requires
        0 <= j <= k,
        s >= 1,
    ensures
        frame_timestamp(j, s) <= frame_timestamp(k, s),
        0 <= frame_timestamp(j, s),
{
    vstd::arithmetic::mul::lemma_mul_inequality(j, k, s);
    vstd::arithmetic::mul::lemma_mul_nonnegative(j, s);
}

/// Stamping frame `n + 1` adds the spacing to frame `n`'s stamp, saturating.
proof fn lemma_next_frame_timestamp(n: int, s: int)
    requires
        n >= 0,
        s >= 1,
    ensures
        frame_timestamp(n + 1, s) == saturating_sum(frame_timestamp(n, s), s),
{
    vstd::arithmetic::mul::lemma_mul_is_distributive_add_other_way(s, n, 1);
    vstd::arithmetic::mul::lemma_mul_nonnegative(n, s);
}

/// Once frames have been added, every frame is stamped later than the one
/// before it.
pub proof fn lemma_timestamps_strictly_increase(encoder: &WebpEncoder, j: int, k: int)
    requires
        encoder.wf(),
        0 <= j < k < encoder.timestamps().len(),
    ensures
        encoder.timestamps()[j] < encoder.timestamps()[k],
{
    let ts = encoder.timestamps();
    let s = encoder.frame_spacing();
    assert(ts[j] < i32::MAX);
    assert(ts[j] == frame_timestamp(j, s));
    assert(ts[k] == frame_timestamp(k, s));
    vstd::arithmetic::mul::lemma_mul_strict_inequality(j, k, s);
}

/// The timeline of the animation (the end timestamp the last frame lasts
/// until) is the number of frames times the spacing, saturated at `i32::MAX`.
pub proof fn lemma_timeline_is_frame_count_times_spacing(encoder: &WebpEncoder)
    requires
        encoder.wf(),
    ensures
        encoder.next_timestamp() == frame_timestamp(encoder.timestamps().len() as int, encoder.frame_spacing()),
        encoder.timestamps().len() * encoder.frame_spacing() <= i32::MAX ==> encoder.next_timestamp()
            == encoder.timestamps().len() * encoder.frame_spacing(),
{
}

} // verus!
