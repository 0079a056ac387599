use pointillist::Args;
use pointillist::BrightnessKey;
use pointillist::DotFrame;
use pointillist::GifFrame;
use pointillist::PixelKey;
use pointillist::convert_to_dots;
use pointillist::group_rgba;
use pointillist::human_perceived_brightness;
use pointillist::max_cell_value;
use pointillist::rasterize_frames;

/// A frame of gray pixels whose brightness equals the gray value, so cell
/// averages can be computed by hand.
fn gray_frame(width: u16, height: u16, values: &[u8]) -> GifFrame {
    assert_eq!(values.len(), width as usize * height as usize);
    GifFrame {
        width,
        height,
        buffer: values.iter().map(|&v| (v, v, v, 255u8)).collect(),
    }
}

#[test]
fn documented_defaults() {
    let args = Args::default();
    assert_eq!(args.block_size, 8);
    assert_eq!(args.padding, 2);
    assert_eq!(args.radius, 8);
    assert_eq!(args.delay, 5);
    assert!(args.in_path.is_empty());
    assert!(args.out_path.is_empty());
}

#[test]
fn brightness_of_primaries() {
    assert_eq!(human_perceived_brightness(255, 255, 255), 255);
    assert_eq!(human_perceived_brightness(0, 0, 0), 0);
    // round(sqrt(0.299 * 255^2)) = round(139.44) = 139
    assert_eq!(human_perceived_brightness(255, 0, 0), 139);
    // round(sqrt(0.587 * 255^2)) = round(195.37) = 195
    assert_eq!(human_perceived_brightness(0, 255, 0), 195);
    // round(sqrt(0.114 * 255^2)) = round(86.10) = 86
    assert_eq!(human_perceived_brightness(0, 0, 255), 86);
    // gray stays itself: sqrt((0.299 + 0.587 + 0.114) * v^2) = v
    assert_eq!(human_perceived_brightness(100, 100, 100), 100);
}

#[test]
fn transparent_pixels_key_to_zero() {
    let key = BrightnessKey {};
    // alpha below 128 contributes nothing, whatever the color says
    assert_eq!(key.key((255, 255, 255, 0)), 0);
    assert_eq!(key.key((255, 255, 255, 127)), 0);
    assert_eq!(key.key((1, 2, 3, 64)), 0);
}

#[test]
fn key_scales_by_alpha() {
    let key = BrightnessKey {};
    assert_eq!(key.key((255, 255, 255, 255)), 255);
    // 255 * 128 / 255 = 128
    assert_eq!(key.key((255, 255, 255, 128)), 128);
    // 100 * 200 / 255 = 78 (truncated)
    assert_eq!(key.key((100, 100, 100, 200)), 78);
}

#[test]
fn key_stays_in_byte_range() {
    let key = BrightnessKey {};
    for &p in &[
        (255u8, 255u8, 255u8, 255u8),
        (255, 0, 0, 255),
        (0, 255, 0, 129),
        (12, 200, 250, 255),
    ] {
        assert!(key.key(p) <= 255);
    }
}

#[test]
fn group_rgba_groups_and_drops_tail() {
    let bytes = vec![1u8, 2, 3, 4, 5, 6, 7, 8, 9];
    let tuples = group_rgba(&bytes);
    assert_eq!(tuples, vec![(1, 2, 3, 4), (5, 6, 7, 8)]);
    assert!(group_rgba(&Vec::new()).is_empty());
}

#[test]
fn block_count_matches_grid() {
    // 17 x 5 frame, block size 8: ceil(17/8) * ceil(5/8) = 3 * 1 cells
    let frame = gray_frame(17, 5, &[0u8; 85]);
    let dots = convert_to_dots(vec![frame], 8, &BrightnessKey {});
    assert_eq!(dots.len(), 1);
    assert_eq!(dots[0].width, 3);
    assert_eq!(dots[0].height, 1);
    assert_eq!(dots[0].buffer.len(), 3);
}

#[test]
fn block_averages_are_truncated_means() {
    // 3 x 2 gray frame, block size 2:
    //   block (0,0) covers 10,20,40,50 -> 30; block (0,1) covers 30,60 -> 45
    let frame = gray_frame(3, 2, &[10, 20, 30, 40, 50, 60]);
    let dots = convert_to_dots(vec![frame], 2, &BrightnessKey {});
    assert_eq!(dots[0].width, 2);
    assert_eq!(dots[0].height, 1);
    assert_eq!(dots[0].buffer, vec![30, 45]);
}

#[test]
fn whole_frame_in_one_block() {
    // block size larger than the frame: one cell, the frame-wide average
    let frame = gray_frame(2, 2, &[10, 20, 30, 41]);
    let dots = convert_to_dots(vec![frame], 16, &BrightnessKey {});
    assert_eq!(dots[0].width, 1);
    assert_eq!(dots[0].height, 1);
    assert_eq!(dots[0].buffer, vec![25]);
}

#[test]
fn max_cell_value_defaults_to_one_without_cells() {
    assert_eq!(max_cell_value(&Vec::new()), 1);
    let empty = DotFrame { width: 0, height: 0, buffer: Vec::new() };
    assert_eq!(max_cell_value(&vec![empty]), 1);
}

#[test]
fn max_cell_value_of_all_zero_cells_is_zero() {
    // an all-zero animation keeps maximum 0; the divisor fallback happens
    // later, in the rasterizer
    let d = DotFrame { width: 2, height: 1, buffer: vec![0, 0] };
    assert_eq!(max_cell_value(&vec![d]), 0);
}

#[test]
fn max_cell_value_spans_all_frames() {
    let a = DotFrame { width: 2, height: 1, buffer: vec![3, 7] };
    let b = DotFrame { width: 2, height: 1, buffer: vec![250, 1] };
    assert_eq!(max_cell_value(&vec![a, b]), 250);
}

#[test]
fn canvas_sizing_formula() {
    // grid 2 x 2, padding 2, radius 8: 2*(2*8+2)+2 = 38 on both axes
    let d = DotFrame { width: 2, height: 2, buffer: vec![255, 255, 255, 255] };
    let canvases = rasterize_frames(&vec![d], 2, 8, 255);
    assert_eq!(canvases.len(), 1);
    assert_eq!(canvases[0].width, 38);
    assert_eq!(canvases[0].height, 38);
    assert_eq!(canvases[0].pixels.len(), 38 * 38);
}

#[test]
fn full_intensity_draws_full_circles() {
    let d = DotFrame { width: 2, height: 2, buffer: vec![255, 255, 255, 255] };
    let canvases = rasterize_frames(&vec![d], 2, 8, 255);
    let c = &canvases[0];
    let at = |x: usize, y: usize| c.pixels[y * 38 + x];
    // centers at (10,10), (28,10), (10,28), (28,28)
    assert_eq!(at(10, 10), 1);
    assert_eq!(at(28, 28), 1);
    // radius exactly 8: (2,10) touches the circle, (1,10) lies outside
    assert_eq!(at(2, 10), 1);
    assert_eq!(at(1, 10), 2);
    // corners stay transparent, never background
    assert_eq!(at(0, 0), 2);
    assert_eq!(at(37, 37), 2);
    assert!(c.pixels.iter().all(|&p| p == 1 || p == 2));
}

#[test]
fn radius_follows_intensity() {
    // single cell, intensity 128 of 255, radius 8: scaled radius 4.015...
    // so distance 4 is inside and distance 5 outside
    let d = DotFrame { width: 1, height: 1, buffer: vec![128] };
    let canvases = rasterize_frames(&vec![d], 2, 8, 255);
    let c = &canvases[0];
    assert_eq!(c.width, 20);
    let at = |x: usize, y: usize| c.pixels[y * 20 + x];
    assert_eq!(at(10, 10), 1);
    assert_eq!(at(14, 10), 1);
    assert_eq!(at(15, 10), 2);
    // a brighter cell covers everything the dimmer one covered
    let brighter = DotFrame { width: 1, height: 1, buffer: vec![200] };
    let canvases2 = rasterize_frames(&vec![brighter], 2, 8, 255);
    for i in 0..(20 * 20) {
        if canvases[0].pixels[i] == 1 {
            assert_eq!(canvases2[0].pixels[i], 1);
        }
    }
}

#[test]
fn zero_intensity_collapses_to_center() {
    // all-zero cells with the all-zero divisor fallback: each circle shrinks
    // to radius 0, covering exactly its center pixel
    let d = DotFrame { width: 2, height: 2, buffer: vec![0, 0, 0, 0] };
    let canvases = rasterize_frames(&vec![d], 2, 8, 0);
    let c = &canvases[0];
    let dots: usize = c.pixels.iter().filter(|&&p| p == 1).count();
    assert_eq!(dots, 4);
    assert_eq!(c.pixels[10 * 38 + 10], 1);
    assert_eq!(c.pixels[10 * 38 + 28], 1);
    assert_eq!(c.pixels[28 * 38 + 10], 1);
    assert_eq!(c.pixels[28 * 38 + 28], 1);
}

#[test]
fn frame_count_is_preserved() {
    let frames: Vec<DotFrame> = (0..5)
        .map(|i| DotFrame { width: 2, height: 1, buffer: vec![i * 10, 100] })
        .collect();
    let dots_in = frames.len();
    let canvases = rasterize_frames(&frames, 1, 3, 100);
    assert_eq!(canvases.len(), dots_in);
}
