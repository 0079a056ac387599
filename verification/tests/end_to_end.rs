use pointillist::BrightnessKey;
use pointillist::DotFrame;
use pointillist::GifError;
use pointillist::convert_to_dots;
use pointillist::extract_gif_frames;
use pointillist::max_cell_value;
use pointillist::pointillize;
use pointillist::write_circles_gif;

/// Encodes a one-frame GIF whose every pixel shows the given color.
fn solid_gif(width: u16, height: u16, rgb: (u8, u8, u8)) -> Vec<u8> {
    let mut out = Vec::new();
    {
        let palette = [rgb.0, rgb.1, rgb.2];
        let mut enc = gif::Encoder::new(&mut out, width, height, &palette).unwrap();
        let frame = gif::Frame {
            width,
            height,
            buffer: std::borrow::Cow::Owned(vec![0u8; width as usize * height as usize]),
            ..gif::Frame::default()
        };
        enc.write_frame(&frame).unwrap();
    }
    out
}

/// Encodes a one-frame GIF whose every pixel is fully transparent.
fn transparent_gif(width: u16, height: u16) -> Vec<u8> {
    let mut out = Vec::new();
    {
        let palette = [0u8, 0, 0];
        let mut enc = gif::Encoder::new(&mut out, width, height, &palette).unwrap();
        let frame = gif::Frame {
            width,
            height,
            transparent: Some(0),
            buffer: std::borrow::Cow::Owned(vec![0u8; width as usize * height as usize]),
            ..gif::Frame::default()
        };
        enc.write_frame(&frame).unwrap();
    }
    out
}

/// Encodes a GIF of several solid gray frames.
fn gray_animation(width: u16, height: u16, grays: &[u8]) -> Vec<u8> {
    let mut out = Vec::new();
    {
        let mut enc = gif::Encoder::new(&mut out, width, height, &[]).unwrap();
        for &g in grays {
            let frame = gif::Frame {
                width,
                height,
                palette: Some(vec![g, g, g]),
                buffer: std::borrow::Cow::Owned(vec![0u8; width as usize * height as usize]),
                ..gif::Frame::default()
            };
            enc.write_frame(&frame).unwrap();
        }
    }
    out
}

#[test]
fn decodes_solid_white_frame() {
    let data = solid_gif(16, 16, (255, 255, 255));
    let frames = extract_gif_frames(data).unwrap();
    assert_eq!(frames.len(), 1);
    assert_eq!(frames[0].width, 16);
    assert_eq!(frames[0].height, 16);
    assert_eq!(frames[0].buffer.len(), 256);
    assert!(frames[0].buffer.iter().all(|&p| p == (255, 255, 255, 255)));
}

#[test]
fn rejects_garbage_bytes() {
    let err = extract_gif_frames(vec![7u8; 64]).unwrap_err();
    assert!(matches!(err, GifError::DecodeError(_)));
    assert!(!extract_gif_frames(vec![7u8; 64]).unwrap_err().describe().is_empty());
}

#[test]
fn white_frame_scenario() {
    // a 16x16 fully opaque white frame, block size 8, padding 2, radius 8:
    // a 2x2 grid of cells all at 255, canvas 38x38 with four full circles
    let data = solid_gif(16, 16, (255, 255, 255));
    let frames = extract_gif_frames(data).unwrap();
    let dots = convert_to_dots(frames, 8, &BrightnessKey {});
    assert_eq!(dots.len(), 1);
    assert_eq!(dots[0].width, 2);
    assert_eq!(dots[0].height, 2);
    assert_eq!(dots[0].buffer, vec![255, 255, 255, 255]);
    let max_value = max_cell_value(&dots);
    assert_eq!(max_value, 255);
    let out = write_circles_gif(&dots, 2, 8, max_value, 5).unwrap();
    let rendered = extract_gif_frames(out).unwrap();
    assert_eq!(rendered.len(), 1);
    assert_eq!(rendered[0].width, 38);
    assert_eq!(rendered[0].height, 38);
    // circle centers decode to opaque white, corners to transparent
    assert_eq!(rendered[0].buffer[10 * 38 + 10], (255, 255, 255, 255));
    assert_eq!(rendered[0].buffer[28 * 38 + 28], (255, 255, 255, 255));
    assert_eq!(rendered[0].buffer[0].3, 0);
    assert_eq!(rendered[0].buffer[37 * 38 + 37].3, 0);
}

#[test]
fn all_transparent_scenario() {
    // an all fully-transparent frame: every cell 0, maximum 0, every circle
    // collapsed to its center point
    let data = transparent_gif(16, 16);
    let frames = extract_gif_frames(data).unwrap();
    assert!(frames[0].buffer.iter().all(|&p| p.3 == 0));
    let dots = convert_to_dots(frames, 8, &BrightnessKey {});
    assert_eq!(dots[0].buffer, vec![0, 0, 0, 0]);
    let max_value = max_cell_value(&dots);
    assert_eq!(max_value, 0);
    let out = write_circles_gif(&dots, 2, 8, max_value, 5).unwrap();
    let rendered = extract_gif_frames(out).unwrap();
    let opaque: usize = rendered[0].buffer.iter().filter(|p| p.3 != 0).count();
    assert_eq!(opaque, 4);
}

#[test]
fn output_frame_count_matches_input() {
    let data = gray_animation(8, 8, &[10, 80, 160, 240]);
    let decoded = extract_gif_frames(data).unwrap();
    assert_eq!(decoded.len(), 4);
    let n = decoded.len();
    let dots = convert_to_dots(decoded, 4, &BrightnessKey {});
    assert_eq!(dots.len(), n);
    let max_value = max_cell_value(&dots);
    let out = write_circles_gif(&dots, 2, 3, max_value, 5).unwrap();
    let rendered = extract_gif_frames(out).unwrap();
    assert_eq!(rendered.len(), n);
}

#[test]
fn pointillize_end_to_end() {
    let data = solid_gif(16, 16, (255, 255, 255));
    let out = pointillize(data, 8, 2, 8, 5).unwrap();
    let rendered = extract_gif_frames(out).unwrap();
    assert_eq!(rendered.len(), 1);
    assert_eq!(rendered[0].width, 38);
    assert_eq!(rendered[0].buffer[10 * 38 + 10], (255, 255, 255, 255));
}

#[test]
fn output_is_deterministic() {
    // the whole conversion reads and writes in-memory buffers, so the same
    // input and knobs give byte-identical output
    let data = gray_animation(8, 8, &[10, 80, 160, 240]);
    let once = pointillize(data.clone(), 4, 2, 3, 5).unwrap();
    let again = pointillize(data, 4, 2, 3, 5).unwrap();
    assert_eq!(once, again);
}

#[test]
fn empty_animation_is_refused() {
    // a GIF stream without a single frame: this decoder already balks while
    // reading the stream info, so the failure surfaces as a decode error
    let mut out = Vec::new();
    {
        let _enc = gif::Encoder::new(&mut out, 4, 4, &[0u8, 0, 0]).unwrap();
    }
    let err = pointillize(out, 8, 2, 8, 5).unwrap_err();
    assert!(matches!(err, GifError::DecodeError(_) | GifError::EmptyAnimation));
}

#[test]
fn empty_animation_message() {
    assert_eq!(GifError::EmptyAnimation.describe(), "the animation holds no frame");
}

#[test]
fn mismatched_grids_are_an_encode_error() {
    let a = DotFrame { width: 2, height: 2, buffer: vec![1, 2, 3, 4] };
    let b = DotFrame { width: 3, height: 2, buffer: vec![1, 2, 3, 4, 5, 6] };
    let err = write_circles_gif(&vec![a, b], 2, 8, 6, 5).unwrap_err();
    assert!(matches!(err, GifError::EncodeError(_)));
}

#[test]
fn oversized_canvas_is_an_encode_error() {
    // 65535 cells of 18 pixels each cannot fit the format's 16-bit sizes
    let wide = DotFrame { width: 65535, height: 1, buffer: vec![0; 65535] };
    let err = write_circles_gif(&vec![wide], 2, 8, 1, 5).unwrap_err();
    assert!(matches!(err, GifError::EncodeError(_)));
}
