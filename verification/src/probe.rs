//! Header-only metadata probing: resolve a file's pixel dimensions from its
//! raw bytes without materializing pixel data. Vector documents are parsed
//! just far enough to resolve the intrinsic canvas size; raster containers
//! are read header-only.

use vstd::prelude::*;
use crate::format::ImageFormat;

verus! {

/// The intrinsic canvas size a vector document resolves to, if it parses;
/// a function of the bytes alone. Both sides are at least one pixel.
pub uninterp spec fn svg_canvas_size(data: Seq<u8>) -> Option<(u32, u32)>;

/// Relies on usvg::Tree::from_data and Size::to_int_size: parses the
/// vector markup and resolves the document's intrinsic canvas size without
/// rasterizing; the integer size is clamped to at least one pixel a side.
#[verifier::external_body]
fn parse_svg_canvas(data: &[u8]) -> (r: Option<(u32, u32)>)
    ensures
        r == svg_canvas_size(data@),
        r is Some ==> 0 < (r->0).0 && 0 < (r->0).1,
{
    let opt = resvg::usvg::Options::default();
    match resvg::usvg::Tree::from_data(data, &opt) {
        Ok(tree) => {
            let size = tree.size().to_int_size();
            Some((size.width(), size.height()))
        },
        Err(_) => None,
    }
}

/// The dimensions a raster container header declares, if it parses; a
/// function of the bytes alone.
pub uninterp spec fn raster_dimensions(data: Seq<u8>) -> Option<(u32, u32)>;

/// Relies on image::ImageReader::into_dimensions: reads the container
/// header only, after guessing the concrete format from the content, and
/// never decodes pixel data.
#[verifier::external_body]
fn read_raster_dimensions(data: &[u8]) -> (r: Option<(u32, u32)>)
    ensures
        r == raster_dimensions(data@),
{
    let cursor = std::io::Cursor::new(data);
    match image::ImageReader::new(cursor).with_guessed_format() {
        Ok(reader) => reader.into_dimensions().ok(),
        Err(_) => None,
    }
}

/// Why a probe failed.
#[derive(Clone, Copy, Debug, PartialEq, Eq, Structural)]
pub enum ProbeError {
    /// The header did not parse: corrupted, truncated, or not the format
    /// it was identified as.
    HeaderUnparsed,
    /// The header parsed but declares an empty canvas.
    ZeroSizedCanvas,
}

/// What probing decides for the given bytes and identified format.
pub open spec fn probe_spec(data: Seq<u8>, format: ImageFormat) -> Result<(u32, u32), ProbeError> {
    let parsed = if format is Svg {
        svg_canvas_size(data)
    } else {
        raster_dimensions(data)
    };
    match parsed {
        None => Err(ProbeError::HeaderUnparsed),
        Some((w, h)) => if w == 0 || h == 0 {
            Err(ProbeError::ZeroSizedCanvas)
        } else {
            Ok((w, h))
        },
    }
}

/// Resolve the dimensions of a file from its bytes and identified format,
/// without loading pixel buffers. A header that does not parse, or a
/// zero-sized canvas, is reported as an error, never a panic.
pub fn probe_image(data: &[u8], format: ImageFormat) -> (r: Result<(u32, u32), ProbeError>)
    ensures
        r == probe_spec(data@, format),
        r is Ok ==> 0 < (r->Ok_0).0 && 0 < (r->Ok_0).1,
{
    let parsed: Option<(u32, u32)> = match format {
        ImageFormat::Svg => parse_svg_canvas(data),
        ImageFormat::Gif => read_raster_dimensions(data),
        ImageFormat::Static => read_raster_dimensions(data),
    };
    match parsed {
        None => Err(ProbeError::HeaderUnparsed),
        Some((w, h)) => if w == 0 || h == 0 {
            Err(ProbeError::ZeroSizedCanvas)
        } else {
            Ok((w, h))
        },
    }
}

} // verus!
