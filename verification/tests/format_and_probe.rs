use rsiv::format::{has_svg_marker, identify_format, ImageFormat};
use rsiv::probe::{probe_image, ProbeError};
use std::io::Cursor;

fn png_bytes(width: u32, height: u32) -> Vec<u8> {
    let img = image::RgbaImage::from_fn(width, height, |x, y| {
        image::Rgba([(x * 40 % 256) as u8, (y * 80 % 256) as u8, 7, 255])
    });
    let mut out = Cursor::new(Vec::new());
    img.write_to(&mut out, image::ImageFormat::Png).unwrap();
    out.into_inner()
}

fn svg_bytes(width: u32, height: u32) -> Vec<u8> {
    format!(
        "<svg xmlns=\"http://www.w3.org/2000/svg\" width=\"{}\" height=\"{}\"><rect width=\"{}\" height=\"{}\" fill=\"#ff0000\"/></svg>",
        width, height, width, height
    )
    .into_bytes()
}

#[test]
fn identify_png_as_static() {
    let data = png_bytes(3, 2);
    assert_eq!(identify_format(&data), Ok(ImageFormat::Static));
}

#[test]
fn identify_gif_by_magic() {
    // Magic number alone settles the format; a full stream is not needed.
    let data = b"GIF89a\x01\x00\x01\x00".to_vec();
    assert_eq!(identify_format(&data), Ok(ImageFormat::Gif));
}

#[test]
fn identify_svg_by_content_scan() {
    let data = svg_bytes(10, 10);
    assert_eq!(identify_format(&data), Ok(ImageFormat::Svg));
}

#[test]
fn identify_svg_case_insensitive() {
    let data = b"  <SVG width=\"5\" height=\"5\"></SVG>".to_vec();
    assert!(has_svg_marker(&data));
    assert_eq!(identify_format(&data), Ok(ImageFormat::Svg));
}

#[test]
fn identify_rejects_plain_text() {
    let data = b"just some text, no markup at all".to_vec();
    assert!(identify_format(&data).is_err());
    assert!(!has_svg_marker(&data));
}

#[test]
fn probe_png_dimensions() {
    let data = png_bytes(31, 17);
    assert_eq!(probe_image(&data, ImageFormat::Static), Ok((31, 17)));
}

#[test]
fn probe_svg_canvas() {
    let data = svg_bytes(200, 100);
    assert_eq!(probe_image(&data, ImageFormat::Svg), Ok((200, 100)));
}

#[test]
fn probe_corrupted_header_errors() {
    // A corrupted or truncated header is an error, never a panic.
    let garbage = vec![0u8, 1, 2, 3, 4, 5, 6, 7, 8, 9];
    assert_eq!(
        probe_image(&garbage, ImageFormat::Static),
        Err(ProbeError::HeaderUnparsed)
    );
    assert_eq!(
        probe_image(&garbage, ImageFormat::Gif),
        Err(ProbeError::HeaderUnparsed)
    );
    assert_eq!(
        probe_image(&garbage, ImageFormat::Svg),
        Err(ProbeError::HeaderUnparsed)
    );
}

#[test]
fn probe_truncated_png_errors() {
    let mut data = png_bytes(8, 8);
    data.truncate(10);
    assert_eq!(
        probe_image(&data, ImageFormat::Static),
        Err(ProbeError::HeaderUnparsed)
    );
}

#[test]
fn probe_zero_sized_canvas_errors() {
    // a header that parses but declares an empty canvas
    let mut data = b"farbfeld".to_vec();
    data.extend_from_slice(&[0u8; 8]);
    assert_eq!(
        probe_image(&data, ImageFormat::Static),
        Err(ProbeError::ZeroSizedCanvas)
    );
}
