use vstd::prelude::*;
use vstd::arithmetic::div_mod::lemma_fundamental_div_mod;
use vstd::arithmetic::div_mod::lemma_mod_bound;
use vstd::arithmetic::div_mod::lemma_div_by_multiple;
use crate::types::GifError;
use crate::types::GifFrame;

verus! {

/// Holds the gif crate's streaming decoder over an in-memory byte stream.
/// Verus cannot declare `gif::Decoder` itself (its type parameter is bound by
/// `std::io::Read`, which vstd gives no specification), so the decoder sits
/// opaquely behind this struct and is reached only through the trusted
/// wrappers below.
#[verifier::external_body]
pub struct FrameDecoder {
    inner: gif::Decoder<std::io::Cursor<Vec<u8>>>,
}

/// What the gif crate decodes from a byte stream in RGBA mode. The decoder
/// reads from an in-memory buffer, so its outcome is a function of the bytes
/// alone: `Some(frames)` — each frame as (width, height, RGBA bytes), in
/// stream order — when the crate accepts the whole stream, `None` when it
/// rejects the header or any frame as malformed.
pub uninterp spec fn gif_rgba_frames(data: Seq<u8>) -> Option<Seq<(u16, u16, Seq<u8>)>>;

/// The decoder was opened with RGBA color output, so every frame it decodes
/// carries 4 bytes per pixel.
pub uninterp spec fn rgba_output(d: FrameDecoder) -> bool;

/// The frames this decoder will still hand out successfully, oldest first.
/// The stream is a finite in-memory buffer that each read consumes, so this
/// sequence shrinks by one with every frame handed out.
pub uninterp spec fn decoder_pending(d: FrameDecoder) -> Seq<(u16, u16, Seq<u8>)>;

/// Whether, once [`decoder_pending`] is exhausted, the stream ends cleanly
/// (the next read reports the end) rather than with a decode error.
pub uninterp spec fn decoder_clean(d: FrameDecoder) -> bool;

/// Relies on gif::DecodeOptions::read_info with gif::ColorOutput::RGBA: opens
/// a decoder over the given bytes, or reports a malformed GIF header. Reading
/// from memory is deterministic, so a fresh decoder's pending frames are the
/// stream's frames: all of them when the stream is well formed; when it is
/// malformed past the header, the reads will end in an error.
#[verifier::external_body]
fn open_decoder(data: Vec<u8>) -> (r: Result<FrameDecoder, String>)
    ensures
        r matches Ok(d) ==> rgba_output(d),
        r matches Ok(d) ==> (gif_rgba_frames(data@) matches Some(s) ==> decoder_pending(d) == s
            && decoder_clean(d)),
        r matches Ok(d) ==> (gif_rgba_frames(data@) is None ==> !decoder_clean(d)),
        r is Err ==> gif_rgba_frames(data@) is None,
{
    let mut options = gif::DecodeOptions::new();
    options.set_color_output(gif::ColorOutput::RGBA);
    match options.read_info(std::io::Cursor::new(data)) {
        Ok(inner) => Ok(FrameDecoder { inner }),
        Err(e) => Err(format!("Failed to read GIF info: {}", e)),
    }
}

/// Relies on gif::Decoder::read_next_frame: hands out the next pending
/// frame's dimensions and its buffer — which the decoder sizes to exactly
/// width*height*4 bytes in RGBA mode — or, once the pending frames are
/// exhausted, the clean end of the stream or the decoder's error message on
/// malformed frame data.
#[verifier::external_body]
fn read_frame(d: &mut FrameDecoder) -> (r: Result<Option<(u16, u16, Vec<u8>)>, String>)
    requires
        rgba_output(*old(d)),
    ensures
        rgba_output(*final(d)),
        decoder_clean(*final(d)) == decoder_clean(*old(d)),
        r matches Ok(Some((w, h, buf))) ==> decoder_pending(*old(d)).len() > 0
            && decoder_pending(*old(d))[0] == (w, h, buf@) && decoder_pending(*final(d))
            == decoder_pending(*old(d)).skip(1) && buf@.len() == w as int * h as int * 4,
        r matches Ok(None) ==> decoder_pending(*old(d)).len() == 0 && decoder_clean(*old(d))
            && decoder_pending(*final(d)) == decoder_pending(*old(d)),
        r is Err ==> decoder_pending(*old(d)).len() == 0 && !decoder_clean(*old(d)),
{
    match d.inner.read_next_frame() {
        Ok(Some(f)) => Ok(Some((f.width, f.height, f.buffer.to_vec()))),
        Ok(None) => Ok(None),
        Err(e) => Err(format!("Failed to read frame: {}", e)),
    }
}

/// The RGBA tuples of a raw byte buffer, four consecutive bytes each;
/// trailing bytes that do not fill a whole tuple are dropped.
pub open spec fn rgba_groups(bytes: Seq<u8>) -> Seq<(u8, u8, u8, u8)> {
    Seq::new(
        (bytes.len() / 4) as nat,
        |j: int| (bytes[4 * j], bytes[4 * j + 1], bytes[4 * j + 2], bytes[4 * j + 3]),
    )
}

/// Groups a raw byte buffer into RGBA tuples, four consecutive bytes each;
/// trailing bytes that do not fill a whole tuple are dropped.
#[verifier::loop_isolation(false)]
pub fn group_rgba(bytes: &Vec<u8>) -> (r: Vec<(u8, u8, u8, u8)>)
    ensures
        r@ == rgba_groups(bytes@),
        r.len() == bytes.len() / 4,
        forall|j: int|
            0 <= j < r.len() ==> #[trigger] r@[j] == (
                bytes@[4 * j],
                bytes@[4 * j + 1],
                bytes@[4 * j + 2],
                bytes@[4 * j + 3],
            ),
{
    let n = bytes.len() / 4;
    proof {
        lemma_fundamental_div_mod(bytes.len() as int, 4);
        lemma_mod_bound(bytes.len() as int, 4);
    }
    let mut r: Vec<(u8, u8, u8, u8)> = Vec::new();
    let mut j: usize = 0;
    while j < n
        invariant
            j <= n,
            r.len() == j,
            forall|k: int|
                0 <= k < j ==> #[trigger] r@[k] == (
                    bytes@[4 * k],
                    bytes@[4 * k + 1],
                    bytes@[4 * k + 2],
                    bytes@[4 * k + 3],
                ),
        decreases n - j,
    {
        let base = 4 * j;
        let rgba = (bytes[base], bytes[base + 1], bytes[base + 2], bytes[base + 3]);
        r.push(rgba);
        j = j + 1;
    }
    proof {
        assert(r@ =~= rgba_groups(bytes@));
    }
    r
}

/// What the decoder owes for one well-formed stream frame: the dimensions
/// carried over and the RGBA bytes grouped into one tuple per pixel.
pub open spec fn frame_of_raw(raw: (u16, u16, Seq<u8>), f: GifFrame) -> bool {
    f.width == raw.0 && f.height == raw.1 && f.buffer@ == rgba_groups(raw.2)
}

/// Frame decoding: reads every frame of an encoded animated GIF into raw
/// RGBA frames, preserving source order. On a well-formed stream the result
/// is exactly the decoded frames, grouped into one RGBA tuple per pixel; a
/// malformed stream yields a decode error.
#[verifier::loop_isolation(false)]
pub fn extract_gif_frames(data: Vec<u8>) -> (r: Result<Vec<GifFrame>, GifError>)
    ensures
        gif_rgba_frames(data@) matches Some(s) ==> (r matches Ok(frames) && frames.len()
            == s.len() && (forall|i: int| 0 <= i < s.len() ==> frame_of_raw(s[i], #[trigger] frames@[i]))),
        gif_rgba_frames(data@) is None ==> r is Err,
        r matches Ok(frames) ==> forall|i: int|
            0 <= i < frames.len() ==> (#[trigger] frames@[i]).buffer.len() == frames@[i].width
                as int * frames@[i].height as int,
        r matches Err(e) ==> e is DecodeError,
{
    let ghost named: Option<Seq<(u16, u16, Seq<u8>)>> = gif_rgba_frames(data@);
    let mut d = match open_decoder(data) {
        Ok(d) => d,
        Err(msg) => {
            return Err(GifError::DecodeError(msg));
        },
    };
    let mut frames: Vec<GifFrame> = Vec::new();
    loop
        invariant
            rgba_output(d),
            named == gif_rgba_frames(data@),
            named matches Some(s) ==> decoder_clean(d) && frames.len() <= s.len()
                && decoder_pending(d) == s.skip(frames.len() as int) && (forall|i: int|
                0 <= i < frames.len() ==> frame_of_raw(s[i], #[trigger] frames@[i])),
            named is None ==> !decoder_clean(d),
            forall|i: int|
                0 <= i < frames.len() ==> (#[trigger] frames@[i]).buffer.len() == frames@[i].width
                    as int * frames@[i].height as int,
        decreases decoder_pending(d).len(),
    {
        let ghost pending_before: Seq<(u16, u16, Seq<u8>)> = decoder_pending(d);
        match read_frame(&mut d) {
            Err(msg) => {
                return Err(GifError::DecodeError(msg));
            },
            Ok(None) => {
                break;
            },
            Ok(Some((w, h, buf))) => {
                let pixels = group_rgba(&buf);
                proof {
                    let px: int = w as int * h as int;
                    assert(buf@.len() == px * 4);
                    lemma_div_by_multiple(px, 4);
                    assert(px * 4 == 4 * px) by (nonlinear_arith);
                    match named {
                        Some(s) => {
                            let k: int = frames.len() as int;
                            assert(pending_before[0] == s.skip(k)[0]);
                            assert(s.skip(k)[0] == s[k]);
                            assert(pending_before.skip(1) =~= s.skip(k + 1));
                        },
                        None => {},
                    }
                }
                frames.push(GifFrame { width: w, height: h, buffer: pixels });
            },
        }
    }
    proof {
        match named {
            Some(s) => {
                assert(decoder_pending(d).len() == s.len() - frames.len());
            },
            None => {},
        }
    }
    Ok(frames)
}

} // verus!
