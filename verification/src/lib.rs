//! Pointillist: turns an animated GIF into a two-tone "pointillist" animation.
//!
//! Each source frame is decoded to RGBA, clustered into blocks whose average
//! perceptual brightness drives the radius of a filled circle, and the circles
//! are re-encoded as an indexed-color animated GIF.

mod types;
mod brightness;
mod aggregate;
mod raster;
mod decode;
mod encode;
mod pipeline;

pub use types::Args;
pub use types::CanvasFrame;
pub use types::DotFrame;
pub use types::GifError;
pub use types::GifFrame;
pub use brightness::BrightnessKey;
pub use brightness::PixelKey;
pub use brightness::human_perceived_brightness;
pub use aggregate::convert_to_dots;
pub use aggregate::max_cell_value;
pub use decode::extract_gif_frames;
pub use decode::group_rgba;
pub use raster::rasterize_frames;
pub use encode::write_circles_gif;
pub use pipeline::pointillize;
