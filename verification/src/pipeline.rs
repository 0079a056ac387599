use vstd::prelude::*;
use crate::aggregate::convert_to_dots;
use crate::aggregate::dots_match;
use crate::aggregate::max_cell_value;
use crate::brightness::BrightnessKey;
use crate::brightness::PixelKey;
use crate::decode::extract_gif_frames;
use crate::decode::frame_of_raw;
use crate::decode::gif_rgba_frames;
use crate::encode::circle_stream_frames;
use crate::encode::gif_stream;
use crate::encode::output_palette;
use crate::encode::write_circles_gif;
use crate::raster::canvas_dim;
use crate::raster::scale_divisor;
use crate::types::DotFrame;
use crate::types::GifError;
use crate::types::GifFrame;

verus! {

/// The whole pipeline relation: `out` is the gif crate's encoding of the
/// circle rendering of a brightness aggregation `dots` of the decoded frames
/// `fs` of the input stream `s`, with `mv` the global maximum cell value
/// (1 where no cell exists at all).
pub open spec fn pointillized(
    s: Seq<(u16, u16, Seq<u8>)>,
    fs: Seq<GifFrame>,
    dots: Seq<DotFrame>,
    mv: usize,
    block_size: usize,
    padding: u32,
    radius: u32,
    delay: u16,
    out: Seq<u8>,
) -> bool {
    &&& fs.len() == s.len()
    &&& forall|i: int| 0 <= i < s.len() ==> frame_of_raw(s[i], #[trigger] fs[i])
    &&& dots.len() == fs.len()
    &&& forall|i: int|
        0 <= i < fs.len() ==> dots_match::<BrightnessKey>(
            #[trigger] fs[i],
            block_size as nat,
            dots[i],
        )
    &&& forall|i: int, j: int|
        0 <= i < dots.len() && 0 <= j < dots[i].buffer.len() ==> #[trigger] dots[i].buffer@[j]
            <= mv
    &&& ((exists|i: int, j: int|
        0 <= i < dots.len() && 0 <= j < dots[i].buffer.len() && #[trigger] dots[i].buffer@[j]
            == mv) || ((forall|i: int| 0 <= i < dots.len() ==> (#[trigger] dots[i]).buffer.len()
        == 0) && mv == 1))
    &&& dots.len() > 0
    &&& out == gif_stream(
        (
            canvas_dim(dots[0].width as int, padding as int, radius as int) as u16,
            canvas_dim(dots[0].height as int, padding as int, radius as int) as u16,
        ),
        output_palette(),
        true,
        circle_stream_frames(dots, padding as int, radius as int, scale_divisor(mv as int), delay),
    )
}

/// The whole conversion, from encoded input to encoded output: decodes an
/// animated GIF, clusters every frame into blocks keyed by perceptual
/// brightness, scales each block's circle by the global maximum intensity,
/// and encodes the circles as a two-tone animated GIF with the given frame
/// delay. A malformed input is a decode error, an animation without frames
/// is refused, and on success the output bytes are the encoding of the
/// rendered circles of the decoded frames.
pub fn pointillize(
    data: Vec<u8>,
    block_size: usize,
    padding: u32,
    radius: u32,
    delay: u16,
) -> (r: Result<Vec<u8>, GifError>)
    requires
        block_size >= 1,
        block_size * block_size * 255 <= usize::MAX,
    ensures
        r matches Err(e) ==> (e is DecodeError || e is EncodeError || e is EmptyAnimation),
        gif_rgba_frames(data@) is None ==> (r matches Err(e) && e is DecodeError),
        gif_rgba_frames(data@) matches Some(s) ==> !(r matches Err(GifError::DecodeError(_))),
        gif_rgba_frames(data@) matches Some(s) ==> (s.len() == 0 <==> r matches Err(
            GifError::EmptyAnimation,
        )),
        r matches Ok(out) ==> (gif_rgba_frames(data@) matches Some(s) && s.len() > 0 && (exists|
            fs: Seq<GifFrame>,
            dots: Seq<DotFrame>,
            mv: usize,
        |
            pointillized(s, fs, dots, mv, block_size, padding, radius, delay, out@))),
{
    let ghost named: Option<Seq<(u16, u16, Seq<u8>)>> = gif_rgba_frames(data@);
    let frames = match extract_gif_frames(data) {
        Ok(f) => f,
        Err(e) => {
            return Err(e);
        },
    };
    if frames.len() == 0 {
        return Err(GifError::EmptyAnimation);
    }
    let key = BrightnessKey {  };
    proof {
        assert(0 <= block_size * block_size) by (nonlinear_arith);
        assert(block_size * block_size <= block_size * block_size * 255) by (nonlinear_arith)
            requires 0 <= block_size * block_size;
        assert(BrightnessKey::key_bound() == 255);
    }
    let ghost gframes: Seq<GifFrame> = frames@;
    let dots = convert_to_dots(frames, block_size, &key);
    let max_value = max_cell_value(&dots);
    proof {
        assert(max_value <= 255);
        assert forall|i: int| 0 <= i < dots.len() implies crate::raster::dot_wf(
            #[trigger] dots@[i],
        ) by {
            assert(dots_match::<BrightnessKey>(gframes[i], block_size as nat, dots@[i]));
        };
        assert(crate::raster::cells_bounded(dots@, max_value as int));
    }
    let r = write_circles_gif(&dots, padding, radius, max_value, delay);
    proof {
        match r {
            Ok(ref out) => {
                match named {
                    Some(s) => {
                        assert(pointillized(s, gframes, dots@, max_value, block_size, padding,
                            radius, delay, out@));
                    },
                    None => {},
                }
            },
            Err(_) => {},
        }
    }
    r
}

} // verus!
