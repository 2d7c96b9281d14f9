use rsiv::decode::{decode_full, decode_thumbnail, normalize_delay};
use rsiv::format::ImageFormat;
use rsiv::image_item::{thumbnail_dims, FrameData, LoadedImage};
use std::io::Cursor;

fn png_bytes(width: u32, height: u32) -> Vec<u8> {
    let img = image::RgbaImage::from_fn(width, height, |x, y| {
        image::Rgba([(x * 40 % 256) as u8, (y * 80 % 256) as u8, 7, 255])
    });
    let mut out = Cursor::new(Vec::new());
    img.write_to(&mut out, image::ImageFormat::Png).unwrap();
    out.into_inner()
}

fn svg_bytes(width: u32, height: u32) -> Vec<u8> {
    format!(
        "<svg xmlns=\"http://www.w3.org/2000/svg\" width=\"{}\" height=\"{}\"><rect width=\"{}\" height=\"{}\" fill=\"#00ff00\"/></svg>",
        width, height, width, height
    )
    .into_bytes()
}

fn gif_bytes_two_frames() -> Vec<u8> {
    let mut out = Vec::new();
    {
        let mut enc = image::codecs::gif::GifEncoder::new(&mut out);
        enc.set_repeat(image::codecs::gif::Repeat::Infinite).unwrap();
        let red = image::RgbaImage::from_pixel(4, 3, image::Rgba([255, 0, 0, 255]));
        let green = image::RgbaImage::from_pixel(4, 3, image::Rgba([0, 255, 0, 255]));
        let delay = image::Delay::from_numer_denom_ms(100, 1);
        enc.encode_frame(image::Frame::from_parts(red, 0, 0, delay)).unwrap();
        enc.encode_frame(image::Frame::from_parts(green, 0, 0, delay)).unwrap();
    }
    out
}

fn fonts() -> resvg::usvg::fontdb::Database {
    resvg::usvg::fontdb::Database::new()
}

fn checkered(width: u32, height: u32) -> LoadedImage {
    let mut pixels = Vec::new();
    for i in 0..(width * height) {
        pixels.push((i * 11 % 251) as u8);
        pixels.push((i * 7 % 253) as u8);
        pixels.push((i * 3 % 256) as u8);
        pixels.push(255);
    }
    LoadedImage {
        width,
        height,
        frames: vec![FrameData { pixels, delay_ms: u64::MAX }],
    }
}

#[test]
fn decode_png_round_trips_pixels() {
    let src = image::RgbaImage::from_fn(3, 2, |x, y| {
        image::Rgba([(40 * x) as u8, (90 * y) as u8, 17, 255])
    });
    let mut out = Cursor::new(Vec::new());
    src.write_to(&mut out, image::ImageFormat::Png).unwrap();
    let img = decode_full(&out.into_inner(), ImageFormat::Static, &fonts(), None).unwrap();
    assert_eq!((img.width, img.height), (3, 2));
    assert_eq!(img.frames.len(), 1);
    assert_eq!(img.frames[0].delay_ms, u64::MAX);
    assert_eq!(img.frames[0].pixels, src.into_raw());
}

#[test]
fn decode_garbage_errors() {
    let garbage = vec![9u8; 64];
    let db = fonts();
    assert!(decode_full(&garbage, ImageFormat::Static, &db, None).is_err());
    assert!(decode_full(&garbage, ImageFormat::Gif, &db, None).is_err());
    assert!(decode_full(&garbage, ImageFormat::Svg, &db, None).is_err());
}

#[test]
fn decode_gif_two_frames_with_delays() {
    let img = decode_full(&gif_bytes_two_frames(), ImageFormat::Gif, &fonts(), None).unwrap();
    assert_eq!((img.width, img.height), (4, 3));
    assert_eq!(img.frames.len(), 2);
    assert_eq!(img.frames[0].delay_ms, 100);
    assert_eq!(img.frames[1].delay_ms, 100);
    assert_eq!(img.frames[0].pixels[0..4], [255, 0, 0, 255]);
    assert_eq!(img.frames[1].pixels[0..4], [0, 255, 0, 255]);
}

#[test]
fn decode_svg_rasterizes_at_canvas_size() {
    let img = decode_full(&svg_bytes(20, 10), ImageFormat::Svg, &fonts(), None).unwrap();
    assert_eq!((img.width, img.height), (20, 10));
    assert_eq!(img.frames.len(), 1);
    assert_eq!(img.frames[0].pixels.len(), 20 * 10 * 4);
    assert_eq!(img.frames[0].delay_ms, u64::MAX);
}

#[test]
fn degenerate_delays_normalize_to_default() {
    // A zero-denominator or zero-length declared delay yields 100ms,
    // never a frozen or infinitely fast animation.
    assert_eq!(normalize_delay(7, 0), 100);
    assert_eq!(normalize_delay(0, 0), 100);
    assert_eq!(normalize_delay(0, 5), 100);
    assert_eq!(normalize_delay(3, 5), 100);
    assert_eq!(normalize_delay(300, 2), 150);
}

#[test]
fn thumbnail_dims_preserve_aspect() {
    assert_eq!(thumbnail_dims(200, 100, 64), (64, 32));
    assert_eq!(thumbnail_dims(100, 200, 64), (32, 64));
    assert_eq!(thumbnail_dims(100, 100, 64), (64, 64));
    assert_eq!(thumbnail_dims(1000, 1, 64), (64, 1));
    assert_eq!(thumbnail_dims(1, 1000, 64), (1, 64));
}

#[test]
fn svg_thumbnail_keeps_two_to_one_aspect() {
    // A 200 by 100 vector canvas at target 64 comes out 64 by 32, never
    // distorted to a square.
    let thumb = decode_thumbnail(&svg_bytes(200, 100), ImageFormat::Svg, 64, &fonts(), None).unwrap();
    assert_eq!((thumb.width, thumb.height), (64, 32));
    assert_eq!(thumb.pixels.len(), 64 * 32 * 4);
}

#[test]
fn png_thumbnail_is_resized() {
    let thumb = decode_thumbnail(&png_bytes(8, 4), ImageFormat::Static, 4, &fonts(), None).unwrap();
    assert_eq!((thumb.width, thumb.height), (4, 2));
    assert_eq!(thumb.pixels.len(), 4 * 2 * 4);
}

#[test]
fn rotate_clockwise_four_times_is_identity() {
    let original = checkered(5, 3);
    let mut img = checkered(5, 3);
    for _ in 0..4 {
        img.rotate(true);
    }
    assert_eq!((img.width, img.height), (5, 3));
    assert_eq!(img.frames[0].pixels, original.frames[0].pixels);
}

#[test]
fn rotate_counter_clockwise_four_times_is_identity() {
    let original = checkered(4, 6);
    let mut img = checkered(4, 6);
    for _ in 0..4 {
        img.rotate(false);
    }
    assert_eq!((img.width, img.height), (4, 6));
    assert_eq!(img.frames[0].pixels, original.frames[0].pixels);
}

#[test]
fn rotate_once_moves_pixels() {
    // A 2 by 1 strip [a, b] turns clockwise into a column [a; b].
    let img0 = LoadedImage {
        width: 2,
        height: 1,
        frames: vec![FrameData {
            pixels: vec![1, 2, 3, 4, 5, 6, 7, 8],
            delay_ms: 42,
        }],
    };
    let mut img = img0;
    img.rotate(true);
    assert_eq!((img.width, img.height), (1, 2));
    assert_eq!(img.frames[0].pixels, vec![1, 2, 3, 4, 5, 6, 7, 8]);
    assert_eq!(img.frames[0].delay_ms, 42);
    img.rotate(true);
    assert_eq!((img.width, img.height), (2, 1));
    // after a half turn the two pixels have swapped
    assert_eq!(img.frames[0].pixels, vec![5, 6, 7, 8, 1, 2, 3, 4]);
}

#[test]
fn flip_horizontal_twice_is_identity() {
    let original = checkered(7, 2);
    let mut img = checkered(7, 2);
    img.flip_horizontal();
    assert_ne!(img.frames[0].pixels, original.frames[0].pixels);
    img.flip_horizontal();
    assert_eq!((img.width, img.height), (7, 2));
    assert_eq!(img.frames[0].pixels, original.frames[0].pixels);
}

#[test]
fn flip_vertical_twice_is_identity() {
    let original = checkered(2, 5);
    let mut img = checkered(2, 5);
    img.flip_vertical();
    assert_ne!(img.frames[0].pixels, original.frames[0].pixels);
    img.flip_vertical();
    assert_eq!((img.width, img.height), (2, 5));
    assert_eq!(img.frames[0].pixels, original.frames[0].pixels);
}

#[test]
fn flip_horizontal_mirrors_row() {
    let mut img = LoadedImage {
        width: 2,
        height: 1,
        frames: vec![FrameData {
            pixels: vec![1, 2, 3, 4, 5, 6, 7, 8],
            delay_ms: 0,
        }],
    };
    img.flip_horizontal();
    assert_eq!(img.frames[0].pixels, vec![5, 6, 7, 8, 1, 2, 3, 4]);
}
