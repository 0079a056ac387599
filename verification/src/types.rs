use vstd::prelude::*;

verus! {

/// Command-line parameters of the conversion: the two file paths and the
/// numeric knobs of the pipeline, with their documented defaults.
pub struct Args {
    /// Path to the input GIF file.
    pub in_path: String,
    /// Path to the output GIF file.
    pub out_path: String,
    /// Size of the blocks to cluster pixels into.
    pub block_size: usize,
    /// How much padding to add between the circles.
    pub padding: u32,
    /// Maximum radius of the circles.
    pub radius: u32,
    /// Delay of the frames in the output GIF, in hundredths of a second.
    pub delay: u16,
}

impl Default for Args {
    /// The documented defaults: block size 8, padding 2, maximum radius 8,
    /// frame delay 5 hundredths of a second, and empty paths.
    fn default() -> (a: Args)
        ensures
            a.in_path@.len() == 0,
            a.out_path@.len() == 0,
            a.block_size == 8,
            a.padding == 2,
            a.radius == 8,
            a.delay == 5,
    {
        Args {
            in_path: String::new(),
            out_path: String::new(),
            block_size: 8,
            padding: 2,
            radius: 8,
            delay: 5,
        }
    }
}

/// One decoded source frame: RGBA pixel tuples in row-major order.
#[derive(Debug)]
pub struct GifFrame {
    pub width: u16,
    pub height: u16,
    /// The pixel data of the frame in RGBA format.
    pub buffer: Vec<(u8, u8, u8, u8)>,
}

/// One downsampled frame: a grid of scalar intensity values ("dots"),
/// row-major, one cell per block of the source frame.
#[derive(Debug)]
pub struct DotFrame {
    pub width: u16,
    pub height: u16,
    /// Some "key" value per grid cell, e.g. average brightness.
    pub buffer: Vec<usize>,
}

/// One rendered output frame: palette indices in row-major order.
/// Index 1 marks a pixel inside a circle, index 2 a transparent pixel;
/// index 0 (background) is reserved in the palette but never written.
pub struct CanvasFrame {
    pub width: u16,
    pub height: u16,
    pub pixels: Vec<u8>,
}

/// What can go wrong in the pipeline. File I/O errors stay with the caller;
/// these cover the in-memory decode and encode stages.
#[derive(Debug)]
pub enum GifError {
    /// The input container or its frame data is malformed.
    DecodeError(String),
    /// The output writer rejected the palette or frame data, or the frames
    /// disagree in size.
    EncodeError(String),
    /// The animation holds no frame at all.
    EmptyAnimation,
}

impl GifError {
    /// A human-readable description of the error: the decoder's or encoder's
    /// own message, or the fixed sentence for a frameless animation.
    pub fn describe(&self) -> (r: String)
        ensures
            self matches GifError::DecodeError(m) ==> r@ == m@,
            self matches GifError::EncodeError(m) ==> r@ == m@,
            self is EmptyAnimation ==> r@ == "the animation holds no frame"@,
    {
        match self {
            GifError::DecodeError(m) => m.clone(),
            GifError::EncodeError(m) => m.clone(),
            GifError::EmptyAnimation => "the animation holds no frame".to_string(),
        }
    }
}

} // verus!
