use vstd::prelude::*;
use crate::raster::canvas_dim;
use crate::raster::canvas_pixels;
use crate::raster::cells_bounded;
use crate::raster::dot_wf;
use crate::raster::lemma_canvas_matches_pixels;
use crate::raster::rasterize_frames;
use crate::raster::scale_divisor;
use crate::raster::uniform_grids;
use crate::types::DotFrame;
use crate::types::GifError;

verus! {

/// Holds the gif crate's streaming encoder over an in-memory byte stream.
/// Verus cannot declare `gif::Encoder` itself (its type parameter is bound by
/// `std::io::Write`, which vstd gives no specification), so the encoder sits
/// opaquely behind this struct and is reached only through the trusted
/// wrappers below.
#[verifier::external_body]
pub struct FrameEncoder {
    inner: gif::Encoder<Vec<u8>>,
}

/// The frames handed to an encoder so far, oldest first, each as
/// (width, height, delay, transparent index, palette-index pixel buffer).
pub uninterp spec fn encoder_frames(e: FrameEncoder) -> Seq<(u16, u16, u16, Option<u8>, Seq<u8>)>;

/// The screen (logical canvas) dimensions the encoder was created with.
pub uninterp spec fn encoder_screen(e: FrameEncoder) -> (u16, u16);

/// The global color palette the encoder was created with, as `[r, g, b, ...]`.
pub uninterp spec fn encoder_palette(e: FrameEncoder) -> Seq<u8>;

/// Whether the infinite-repeat extension block has been written.
pub uninterp spec fn encoder_repeat_infinite(e: FrameEncoder) -> bool;

/// The byte stream that the gif crate emits for one screen size, global
/// palette, repeat flag and frame sequence, when the encoder is driven as
/// the functions of this module drive it: the repeat block, if any, written
/// before the first frame, and every frame written by
/// [`encoder_write_frame`], which fixes background-restore disposal and no
/// local palette. Encoding to an in-memory buffer is deterministic, so the
/// stream is then a function of these arguments alone.
pub uninterp spec fn gif_stream(
    screen: (u16, u16),
    palette: Seq<u8>,
    repeat_infinite: bool,
    frames: Seq<(u16, u16, u16, Option<u8>, Seq<u8>)>,
) -> Seq<u8>;

/// Relies on gif::Encoder::new: writes the screen descriptor and the global
/// color palette (given as `[r, g, b, ...]`) for a fresh in-memory GIF
/// stream. A fresh encoder has been handed no frame and no repeat block yet.
#[verifier::external_body]
fn encoder_new(width: u16, height: u16, palette: &Vec<u8>) -> (r: Result<FrameEncoder, String>)
    ensures
        r matches Ok(e) ==> encoder_frames(e) == Seq::<(u16, u16, u16, Option<u8>, Seq<u8>)>::empty()
            && encoder_screen(e) == (width, height) && encoder_palette(e) == palette@
            && !encoder_repeat_infinite(e),
{
    match gif::Encoder::new(Vec::new(), width, height, palette.as_slice()) {
        Ok(inner) => Ok(FrameEncoder { inner }),
        Err(e) => Err(format!("Failed to create GIF encoder: {}", e)),
    }
}

/// Relies on gif::Encoder::set_repeat with gif::Repeat::Infinite: writes the
/// looping extension block; it hands the encoder no frame and leaves the
/// already-written header untouched.
#[verifier::external_body]
fn encoder_set_infinite_repeat(e: &mut FrameEncoder) -> (r: Result<(), String>)
    ensures
        encoder_frames(*final(e)) == encoder_frames(*old(e)),
        encoder_screen(*final(e)) == encoder_screen(*old(e)),
        encoder_palette(*final(e)) == encoder_palette(*old(e)),
        r is Ok ==> encoder_repeat_infinite(*final(e)),
{
    e.inner.set_repeat(gif::Repeat::Infinite).map_err(|err| format!("Failed to set repeat: {}", err))
}

/// Relies on gif::Encoder::write_frame: writes one full-canvas frame with
/// the given delay and transparent index, no local palette, and
/// background-restore disposal (gif::DisposalMethod::Background), so that a
/// player clears each frame's region before drawing the next one. The
/// precondition keeps out zero-area frames with a non-empty buffer, which
/// the encoder treats as a caller bug.
#[verifier::external_body]
fn encoder_write_frame(
    e: &mut FrameEncoder,
    width: u16,
    height: u16,
    pixels: &Vec<u8>,
    delay: u16,
    transparent: Option<u8>,
) -> (r: Result<(), String>)
    requires
        pixels@.len() == width as int * height as int,
    ensures
        encoder_screen(*final(e)) == encoder_screen(*old(e)),
        encoder_palette(*final(e)) == encoder_palette(*old(e)),
        encoder_repeat_infinite(*final(e)) == encoder_repeat_infinite(*old(e)),
        r is Ok ==> encoder_frames(*final(e)) == encoder_frames(*old(e)).push(
            (width, height, delay, transparent, pixels@),
        ),
{
    let frame = gif::Frame {
        width,
        height,
        buffer: std::borrow::Cow::Borrowed(pixels.as_slice()),
        delay,
        transparent,
        dispose: gif::DisposalMethod::Background,
        ..gif::Frame::default()
    };
    e.inner.write_frame(&frame).map_err(|err| format!("Failed to write frame: {}", err))
}

/// Relies on gif::Encoder::into_inner: writes the GIF trailer and hands back
/// the encoded byte stream, the deterministic encoding of everything the
/// encoder was given.
#[verifier::external_body]
fn encoder_finish(e: FrameEncoder) -> (r: Result<Vec<u8>, String>)
    ensures
        r matches Ok(bytes) ==> bytes@ == gif_stream(
            encoder_screen(e),
            encoder_palette(e),
            encoder_repeat_infinite(e),
            encoder_frames(e),
        ),
{
    e.inner.into_inner().map_err(|err| format!("Failed to finish GIF stream: {}", err))
}

/// The frame sequence that the circle encoder hands to the gif crate for a
/// dot-frame animation: one full-canvas frame per dot frame, in order, with
/// the uniform delay, transparent index 2, and the rasterized pixels.
pub open spec fn circle_stream_frames(
    frames: Seq<DotFrame>,
    padding: int,
    radius: int,
    m: int,
    delay: u16,
) -> Seq<(u16, u16, u16, Option<u8>, Seq<u8>)> {
    let cw = canvas_dim(frames[0].width as int, padding, radius);
    let ch = canvas_dim(frames[0].height as int, padding, radius);
    Seq::new(
        frames.len(),
        |i: int|
            (cw as u16, ch as u16, delay, Some(2u8), canvas_pixels(frames[i], padding, radius, m)),
    )
}

/// The fixed global palette of the output: black (index 0) and white
/// (index 1); index 2 is the designated transparency slot.
pub open spec fn output_palette() -> Seq<u8> {
    seq![0u8, 0u8, 0u8, 255u8, 255u8, 255u8]
}

/// Frame encoding: rasterizes the dot frames into circles and writes a
/// two-tone animated GIF byte stream — global palette black (index 0) and
/// white (index 1), transparency index 2, infinite looping, and one frame
/// per dot frame with a uniform delay. On success the returned bytes are
/// exactly the gif crate's encoding of those frames. Fails with an encode
/// error when the frames disagree in grid size, when the canvas would not
/// fit the format's 16-bit dimensions, or when the underlying writer rejects
/// the data.
#[verifier::loop_isolation(false)]
pub fn write_circles_gif(
    frames: &Vec<DotFrame>,
    padding: u32,
    max_radius: u32,
    max_value: usize,
    delay: u16,
) -> (r: Result<Vec<u8>, GifError>)
    requires
        frames.len() >= 1,
        forall|i: int| 0 <= i < frames.len() ==> dot_wf(#[trigger] frames@[i]),
        cells_bounded(frames@, max_value as int),
        max_value <= 0xFFFF_FFFF,
    ensures
        !uniform_grids(frames@) ==> r is Err,
        r matches Err(e) ==> e is EncodeError,
        r is Ok ==> uniform_grids(frames@) && canvas_dim(
            frames@[0].width as int,
            padding as int,
            max_radius as int,
        ) <= 65535 && canvas_dim(frames@[0].height as int, padding as int, max_radius as int)
            <= 65535,
        r matches Ok(out) ==> out@ == gif_stream(
            (
                canvas_dim(frames@[0].width as int, padding as int, max_radius as int) as u16,
                canvas_dim(frames@[0].height as int, padding as int, max_radius as int) as u16,
            ),
            output_palette(),
            true,
            circle_stream_frames(
                frames@,
                padding as int,
                max_radius as int,
                scale_divisor(max_value as int),
                delay,
            ),
        ),
{
    let ghost mi: int = scale_divisor(max_value as int);
    let gw = frames[0].width;
    let gh = frames[0].height;
    let mut i: usize = 1;
    while i < frames.len()
        invariant
            1 <= i <= frames.len(),
            forall|k: int|
                0 <= k < i ==> #[trigger] frames@[k].width == gw && frames@[k].height == gh,
        decreases frames.len() - i,
    {
        if frames[i].width != gw || frames[i].height != gh {
            return Err(GifError::EncodeError("frame grid sizes disagree".to_string()));
        }
        i = i + 1;
    }
    let s64: u64 = 2 * (max_radius as u64) + (padding as u64);
    proof {
        assert((gw as int) * (s64 as int) >= 0 && (gh as int) * (s64 as int) >= 0)
            by (nonlinear_arith)
            requires 0 <= gw as int, 0 <= gh as int, 0 <= s64 as int;
        assert((gw as int) * (s64 as int) <= 65535 * 0x3_0000_0000) by (nonlinear_arith)
            requires 0 <= gw as int <= 65535, 0 <= s64 as int <= 0x3_0000_0000;
        assert((gh as int) * (s64 as int) <= 65535 * 0x3_0000_0000) by (nonlinear_arith)
            requires 0 <= gh as int <= 65535, 0 <= s64 as int <= 0x3_0000_0000;
    }
    let cw64: u64 = (gw as u64) * s64 + (padding as u64);
    let ch64: u64 = (gh as u64) * s64 + (padding as u64);
    proof {
        assert(cw64 as int == canvas_dim(gw as int, padding as int, max_radius as int));
        assert(ch64 as int == canvas_dim(gh as int, padding as int, max_radius as int));
    }
    if cw64 > 65535 || ch64 > 65535 {
        return Err(GifError::EncodeError("canvas dimensions exceed the GIF limit".to_string()));
    }
    proof {
        assert(gw as int >= 1 ==> s64 as int <= 65535) by (nonlinear_arith)
            requires
                0 <= s64 as int,
                0 <= padding as int,
                (gw as int) * (s64 as int) + padding as int <= 65535;
    }
    let canvases = rasterize_frames(frames, padding, max_radius, max_value);
    let mut palette: Vec<u8> = Vec::new();
    palette.push(0);
    palette.push(0);
    palette.push(0);
    palette.push(255);
    palette.push(255);
    palette.push(255);
    proof {
        assert(palette@ =~= output_palette());
    }
    let cw16 = cw64 as u16;
    let ch16 = ch64 as u16;
    let mut enc = match encoder_new(cw16, ch16, &palette) {
        Ok(e) => e,
        Err(msg) => {
            return Err(GifError::EncodeError(msg));
        },
    };
    match encoder_set_infinite_repeat(&mut enc) {
        Ok(u) => u,
        Err(msg) => {
            return Err(GifError::EncodeError(msg));
        },
    };
    let mut k: usize = 0;
    while k < canvases.len()
        invariant
            k <= canvases.len(),
            canvases.len() == frames.len(),
            encoder_screen(enc) == (cw16, ch16),
            encoder_palette(enc) == output_palette(),
            encoder_repeat_infinite(enc),
            encoder_frames(enc).len() == k as int,
            forall|j: int|
                0 <= j < k ==> #[trigger] encoder_frames(enc)[j] == (
                    cw16,
                    ch16,
                    delay,
                    Some(2u8),
                    canvases@[j].pixels@,
                ),
        decreases canvases.len() - k,
    {
        let canvas = &canvases[k];
        proof {
            assert(canvas.width == cw16 && canvas.height == ch16);
            assert(canvas.pixels@.len() == canvas.width as int * canvas.height as int);
        }
        match encoder_write_frame(&mut enc, canvas.width, canvas.height, &canvas.pixels, delay,
            Some(2u8)) {
            Ok(u) => u,
            Err(msg) => {
                return Err(GifError::EncodeError(msg));
            },
        };
        k = k + 1;
    }
    proof {
        // Round-trip frame count and content: exactly one frame per dot
        // frame was handed to the underlying encoder, in order, carrying the
        // rasterized pixels, the uniform delay and transparency index 2.
        assert forall|j: int| 0 <= j < frames.len() implies #[trigger] encoder_frames(enc)[j]
            == circle_stream_frames(frames@, padding as int, max_radius as int, mi, delay)[j] by {
            lemma_canvas_matches_pixels(
                frames@[j],
                padding as int,
                max_radius as int,
                mi,
                canvases@[j],
            );
        };
        assert(encoder_frames(enc) =~= circle_stream_frames(
            frames@,
            padding as int,
            max_radius as int,
            mi,
            delay,
        ));
    }
    match encoder_finish(enc) {
        Ok(bytes) => Ok(bytes),
        Err(msg) => Err(GifError::EncodeError(msg)),
    }
}

} // verus!
