//! Decoding: turn raw bytes and a format tag into a fully materialized
//! image, or a reduced-resolution thumbnail. Vector documents rasterize
//! once at their intrinsic size; multi-frame containers decode every frame
//! eagerly with degenerate delays normalized; single-frame rasters decode
//! to one dense RGBA frame. Declared dimensions are held to a safety
//! ceiling so corrupt or adversarial headers cannot exhaust memory.

use vstd::prelude::*;
use image::AnimationDecoder;
use crate::format::ImageFormat;
use crate::image_item::{fitted_dims, thumbnail_dims, FrameData, LoadedImage, ThumbnailData};
use crate::probe::svg_canvas_size;

verus! {

/// Largest width or height the decoder will materialize.
pub const MAX_DIMENSION: u32 = 16384;

/// Display delay assigned to static content, effectively infinite.
pub const STATIC_DELAY_MS: u64 = 0xffff_ffff_ffff_ffff;

/// Delay substituted for a degenerate (zero-denominator or zero-length)
/// frame delay, in milliseconds.
pub const NORMALIZED_DELAY_MS: u64 = 100;

/// What a single-frame raster decode of the bytes yields, if it succeeds:
/// width, height, and the dense RGBA buffer; a function of the bytes alone.
pub uninterp spec fn static_pixels(data: Seq<u8>) -> Option<(u32, u32, Seq<u8>)>;

/// Relies on image::ImageReader::decode and DynamicImage::to_rgba8: decodes
/// a single-frame raster image to a dense RGBA buffer, with strict limits
/// on the declared dimensions, so the result never exceeds the ceiling.
/// The decoded dimensions are the ones the header-only read reports: both
/// come from the same decoder's dimensions for the same guessed format.
#[verifier::external_body]
fn decode_static_rgba(data: &[u8]) -> (r: Option<(u32, u32, Vec<u8>)>)
    ensures
        match r {
            Some(t) => {
                &&& static_pixels(data@) == Some((t.0, t.1, t.2@))
                &&& t.2@.len() == (t.0 as int) * (t.1 as int) * 4
                &&& t.0 <= MAX_DIMENSION
                &&& t.1 <= MAX_DIMENSION
                &&& crate::probe::raster_dimensions(data@) == Some((t.0, t.1))
            },
            None => static_pixels(data@) is None,
        },
{
    let cursor = std::io::Cursor::new(data);
    let mut reader = image::ImageReader::new(cursor).with_guessed_format().ok()?;
    let mut limits = image::Limits::default();
    limits.max_image_width = Some(16384);
    limits.max_image_height = Some(16384);
    limits.max_alloc = Some(1024 * 1024 * 1024);
    reader.limits(limits);
    let rgba = reader.decode().ok()?.to_rgba8();
    Some((rgba.width(), rgba.height(), rgba.into_raw()))
}

/// What a multi-frame decode of the bytes yields, if the container parses:
/// for each frame its width, height, RGBA buffer, and the numerator and
/// denominator of its declared delay in milliseconds; a function of the
/// bytes alone.
pub uninterp spec fn gif_frames(data: Seq<u8>) -> Option<Seq<(u32, u32, Seq<u8>, u32, u32)>>;

/// Relies on image::codecs::gif::GifDecoder and AnimationDecoder: decodes
/// every frame of the container eagerly; each frame's buffer is dense RGBA
/// of that frame's own dimensions. Frames are composited onto the logical
/// screen, whose size is what the header-only read reports.
#[verifier::external_body]
fn decode_gif_rgba(data: &[u8]) -> (r: Option<Vec<(u32, u32, Vec<u8>, u32, u32)>>)
    ensures
        match r {
            Some(v) => {
                &&& gif_frames(data@) is Some
                &&& v@.len() == gif_frames(data@)->0.len()
                &&& forall|i: int|
                    0 <= i < v@.len() ==> {
                        let f = #[trigger] v@[i];
                        let g = gif_frames(data@)->0[i];
                        &&& f.0 == g.0
                        &&& f.1 == g.1
                        &&& f.2@ == g.2
                        &&& f.3 == g.3
                        &&& f.4 == g.4
                        &&& f.2@.len() == (f.0 as int) * (f.1 as int) * 4
                    }
                &&& v@.len() > 0 ==> crate::probe::raster_dimensions(data@) == Some(
                    (v@[0].0, v@[0].1),
                )
            },
            None => gif_frames(data@) is None,
        },
{
    let decoder = image::codecs::gif::GifDecoder::new(std::io::Cursor::new(data)).ok()?;
    let collected = decoder.into_frames().collect_frames().ok()?;
    let mut out = Vec::with_capacity(collected.len());
    for frame in collected {
        let (numer, denom) = frame.delay().numer_denom_ms();
        let buffer = frame.into_buffer();
        let (w, h) = (buffer.width(), buffer.height());
        out.push((w, h, buffer.into_raw(), numer, denom));
    }
    Some(out)
}

/// The font set vector rasterization draws text with; created once at
/// startup and passed by shared reference into the decoder.
#[verifier::external_type_specification]
#[verifier::external_body]
pub struct ExFontDatabase(resvg::usvg::fontdb::Database);

/// Whether the vector document parses and its canvas lays out as a pixel
/// buffer. Parsing skips unreadable referenced files rather than failing,
/// and the canvas size is resolved from the root attributes against fixed
/// defaults, so this status — unlike the pixels — is a function of the
/// bytes alone.
pub uninterp spec fn svg_renderable(data: Seq<u8>) -> bool;

/// Relies on usvg::Tree::from_data, resvg::render and tiny_skia::Pixmap:
/// parses the document and rasterizes it once at its intrinsic canvas
/// size — the same size the header-only canvas probe resolves, both being
/// Size::to_int_size of the parsed document's size, which usvg computes
/// from the root attributes independently of the font set and resource
/// directory. The pixels themselves are deliberately left unnamed: text
/// renders against the given font set, and usvg's default href resolver
/// reads referenced image files from disk at parse time, so the same
/// bytes can rasterize differently as the machine or filesystem changes.
#[verifier::external_body]
fn rasterize_svg(
    data: &[u8],
    fonts: &resvg::usvg::fontdb::Database,
    resources_dir: Option<&str>,
) -> (r: Option<(u32, u32, Vec<u8>)>)
    ensures
        r is Some <==> svg_renderable(data@),
        r is Some ==> {
            let t = r->0;
            &&& t.2@.len() == (t.0 as int) * (t.1 as int) * 4
            &&& 0 < t.0
            &&& 0 < t.1
            &&& svg_canvas_size(data@) == Some((t.0, t.1))
        },
{
    let mut opt = resvg::usvg::Options::default();
    opt.resources_dir = resources_dir.map(|s| std::path::PathBuf::from(s));
    opt.fontdb = std::sync::Arc::new(fonts.clone());
    let tree = resvg::usvg::Tree::from_data(data, &opt).ok()?;
    let size = tree.size().to_int_size();
    let (w, h) = (size.width(), size.height());
    let mut pixmap = resvg::tiny_skia::Pixmap::new(w, h)?;
    resvg::render(&tree, resvg::usvg::Transform::default(), &mut pixmap.as_mut());
    Some((w, h, pixmap.take()))
}

/// Why a decode failed.
#[derive(Clone, Copy, Debug, PartialEq, Eq, Structural)]
pub enum DecodeError {
    /// The bytes did not decode in the identified format, or declare an
    /// empty image.
    InvalidData,
    /// The container's frames do not share one set of dimensions.
    InconsistentFrames,
}

/// The normalized display delay: a degenerate declared delay — a zero
/// denominator, or a ratio that computes to zero milliseconds — becomes
/// the default delay rather than a frozen or infinitely fast animation.
pub open spec fn normalized_delay(numer: u32, denom: u32) -> u64 {
    if denom == 0 || numer / denom == 0 {
        NORMALIZED_DELAY_MS
    } else {
        (numer / denom) as u64
    }
}

/// Normalize one frame's declared delay ratio to milliseconds.
pub fn normalize_delay(numer: u32, denom: u32) -> (r: u64)
    ensures
        r == normalized_delay(numer, denom),
{
    if denom == 0 {
        return NORMALIZED_DELAY_MS;
    }
    let ms = numer / denom;
    if ms == 0 {
        NORMALIZED_DELAY_MS
    } else {
        ms as u64
    }
}

/// Every frame of a multi-frame decode shares the first frame's
/// dimensions.
pub open spec fn frames_consistent(fs: Seq<(u32, u32, Seq<u8>, u32, u32)>) -> bool {
    forall|i: int| 0 <= i < fs.len() ==> (#[trigger] fs[i]).0 == fs[0].0 && fs[i].1 == fs[0].1
}

/// Whether a single-frame raster decode of the bytes succeeds with a
/// non-empty image.
pub open spec fn static_decode_ok(data: Seq<u8>) -> bool {
    match static_pixels(data) {
        Some((w, h, _)) => 0 < w && 0 < h,
        None => false,
    }
}

/// Whether a full decode of the bytes succeeds for the given format.
pub open spec fn full_decode_ok(data: Seq<u8>, format: ImageFormat) -> bool {
    match format {
        ImageFormat::Svg => svg_renderable(data),
        ImageFormat::Static => static_decode_ok(data),
        ImageFormat::Gif => match gif_frames(data) {
            None => false,
            Some(fs) => if fs.len() == 0 {
                // an empty container falls back to a single-frame decode
                static_decode_ok(data)
            } else {
                0 < fs[0].0 && 0 < fs[0].1 && frames_consistent(fs)
            },
        },
    }
}

/// The dimensions a successful full decode yields.
pub open spec fn full_dims(data: Seq<u8>, format: ImageFormat) -> (u32, u32) {
    match format {
        ImageFormat::Svg => svg_canvas_size(data)->0,
        ImageFormat::Static => {
            let t = static_pixels(data)->0;
            (t.0, t.1)
        },
        ImageFormat::Gif => {
            let fs = gif_frames(data)->0;
            if fs.len() == 0 {
                let t = static_pixels(data)->0;
                (t.0, t.1)
            } else {
                (fs[0].0, fs[0].1)
            }
        },
    }
}

/// How many frames a successful full decode yields.
pub open spec fn full_frame_count(data: Seq<u8>, format: ImageFormat) -> int {
    match format {
        ImageFormat::Svg => 1,
        ImageFormat::Static => 1,
        ImageFormat::Gif => {
            let fs = gif_frames(data)->0;
            if fs.len() == 0 {
                1
            } else {
                fs.len() as int
            }
        },
    }
}

/// The RGBA buffer of frame `i` of a successful full decode of a raster
/// format. The vector format has no entry here: its pixels depend on the
/// font set and on referenced files read from disk, so they are not a
/// function of the bytes and no contract names them.
pub open spec fn full_frame_pixels(data: Seq<u8>, format: ImageFormat, i: int) -> Seq<u8> {
    match format {
        ImageFormat::Svg => Seq::empty(),
        ImageFormat::Static => (static_pixels(data)->0).2,
        ImageFormat::Gif => {
            let fs = gif_frames(data)->0;
            if fs.len() == 0 {
                (static_pixels(data)->0).2
            } else {
                fs[i].2
            }
        },
    }
}

/// The normalized display delay of frame `i` of a successful full decode.
pub open spec fn full_frame_delay(data: Seq<u8>, format: ImageFormat, i: int) -> u64 {
    match format {
        ImageFormat::Svg => STATIC_DELAY_MS,
        ImageFormat::Static => STATIC_DELAY_MS,
        ImageFormat::Gif => {
            let fs = gif_frames(data)->0;
            if fs.len() == 0 {
                STATIC_DELAY_MS
            } else {
                normalized_delay(fs[i].3, fs[i].4)
            }
        },
    }
}

/// Which error a failed full decode reports: frames that do not share
/// one set of dimensions are the one distinguished failure; everything
/// else is invalid data.
pub open spec fn decode_failure(data: Seq<u8>, format: ImageFormat) -> DecodeError {
    if format is Gif {
        match gif_frames(data) {
            Some(fs) => if fs.len() > 0 && 0 < fs[0].0 && 0 < fs[0].1 && !frames_consistent(fs) {
                DecodeError::InconsistentFrames
            } else {
                DecodeError::InvalidData
            },
            None => DecodeError::InvalidData,
        }
    } else {
        DecodeError::InvalidData
    }
}

/// Decode raw bytes into a fully materialized image under the identified
/// format: a vector document rasterizes once as a single static frame, a
/// multi-frame container decodes every frame with normalized delays (an
/// empty container falls back to a single-frame decode), and a
/// single-frame raster decodes to one static frame.
pub fn decode_full(
    data: &[u8],
    format: ImageFormat,
    fonts: &resvg::usvg::fontdb::Database,
    resources_dir: Option<&str>,
) -> (r: Result<LoadedImage, DecodeError>)
    ensures
        r is Ok <==> full_decode_ok(data@, format),
        r is Err ==> r->Err_0 == decode_failure(data@, format),
        r is Ok ==> {
            let img = r->Ok_0;
            &&& img.wf()
            &&& img.width == full_dims(data@, format).0
            &&& img.height == full_dims(data@, format).1
            &&& img.frames@.len() == full_frame_count(data@, format)
            &&& forall|i: int|
                0 <= i < img.frames@.len() ==> (#[trigger] img.frames@[i]).delay_ms
                    == full_frame_delay(data@, format, i)
        },
        r is Ok && !(format is Svg) ==> forall|i: int|
            0 <= i < r->Ok_0.frames@.len() ==> (#[trigger] r->Ok_0.frames@[i]).pixels@
                == full_frame_pixels(data@, format, i),
        // the metadata lockstep: a successful decode has the dimensions the
        // header-only probe resolves for the same bytes
        r is Ok && format is Svg ==> svg_canvas_size(data@) == Some(
            (r->Ok_0.width, r->Ok_0.height),
        ),
        r is Ok && format is Static ==> crate::probe::raster_dimensions(data@) == Some(
            (r->Ok_0.width, r->Ok_0.height),
        ),
        r is Ok && format is Gif && gif_frames(data@)->0.len() > 0
            ==> crate::probe::raster_dimensions(data@) == Some((r->Ok_0.width, r->Ok_0.height)),
        // the safety ceiling: the limited single-frame decode, reached for
        // the static format and the empty-container fallback, never
        // materializes a side beyond the ceiling
        r is Ok && (format is Static || (format is Gif && gif_frames(data@)->0.len() == 0))
            ==> r->Ok_0.width <= MAX_DIMENSION && r->Ok_0.height <= MAX_DIMENSION,
{
    match format {
        ImageFormat::Svg => {
            match rasterize_svg(data, fonts, resources_dir) {
                Some((w, h, pixels)) => {
                    let frame = FrameData { pixels, delay_ms: STATIC_DELAY_MS };
                    let mut frames: Vec<FrameData> = Vec::new();
                    frames.push(frame);
                    Ok(LoadedImage { width: w, height: h, frames })
                },
                None => Err(DecodeError::InvalidData),
            }
        },
        ImageFormat::Static => decode_static_full(data),
        ImageFormat::Gif => {
            match decode_gif_rgba(data) {
                None => Err(DecodeError::InvalidData),
                Some(raw) => {
                    if raw.len() == 0 {
                        decode_static_full(data)
                    } else {
                        assemble_gif(data, raw)
                    }
                },
            }
        },
    }
}

/// Single-frame raster decode shared by the static path and the empty
/// multi-frame fallback.
fn decode_static_full(data: &[u8]) -> (r: Result<LoadedImage, DecodeError>)
    ensures
        r is Ok <==> static_decode_ok(data@),
        r is Err ==> r->Err_0 is InvalidData,
        r is Ok ==> {
            let img = r->Ok_0;
            &&& img.wf()
            &&& static_pixels(data@) == Some((img.width, img.height, img.frames@[0].pixels@))
            &&& img.frames@.len() == 1
            &&& img.frames@[0].delay_ms == STATIC_DELAY_MS
            &&& img.width <= MAX_DIMENSION
            &&& img.height <= MAX_DIMENSION
            &&& crate::probe::raster_dimensions(data@) == Some((img.width, img.height))
        },
{
    match decode_static_rgba(data) {
        Some((w, h, pixels)) => {
            if w == 0 || h == 0 {
                Err(DecodeError::InvalidData)
            } else {
                let frame = FrameData { pixels, delay_ms: STATIC_DELAY_MS };
                let mut frames: Vec<FrameData> = Vec::new();
                frames.push(frame);
                Ok(LoadedImage { width: w, height: h, frames })
            }
        },
        None => Err(DecodeError::InvalidData),
    }
}

/// Build a multi-frame image from decoded frames, checking that the
/// container is non-empty with one consistent set of dimensions, and
/// normalizing each frame's delay.
fn assemble_gif(data: &[u8], raw: Vec<(u32, u32, Vec<u8>, u32, u32)>) -> (r: Result<
    LoadedImage,
    DecodeError,
>)
    requires
        gif_frames(data@) is Some,
        gif_frames(data@)->0.len() == raw@.len(),
        raw@.len() > 0,
        forall|i: int|
            0 <= i < raw@.len() ==> {
                let f = #[trigger] raw@[i];
                let g = gif_frames(data@)->0[i];
                &&& f.0 == g.0
                &&& f.1 == g.1
                &&& f.2@ == g.2
                &&& f.3 == g.3
                &&& f.4 == g.4
                &&& f.2@.len() == (f.0 as int) * (f.1 as int) * 4
            },
    ensures
        r is Ok <==> (0 < gif_frames(data@)->0[0].0 && 0 < gif_frames(data@)->0[0].1
            && frames_consistent(gif_frames(data@)->0)),
        r is Err ==> (r->Err_0 is InconsistentFrames <==> (0 < gif_frames(data@)->0[0].0 && 0
            < gif_frames(data@)->0[0].1)),
        r is Err && !(r->Err_0 is InconsistentFrames) ==> r->Err_0 is InvalidData,
        r is Ok ==> {
            let img = r->Ok_0;
            let fs = gif_frames(data@)->0;
            &&& img.wf()
            &&& img.width == fs[0].0
            &&& img.height == fs[0].1
            &&& img.frames@.len() == fs.len()
            &&& forall|i: int|
                0 <= i < img.frames@.len() ==> (#[trigger] img.frames@[i]).pixels@ == fs[i].2
                    && img.frames@[i].delay_ms == normalized_delay(fs[i].3, fs[i].4)
        },
{
    let ghost gspec = gif_frames(data@)->0;
    let n = raw.len();
    let w = raw[0].0;
    let h = raw[0].1;
    if w == 0 || h == 0 {
        return Err(DecodeError::InvalidData);
    }
    let mut frames: Vec<FrameData> = Vec::new();
    let mut i: usize = 0;
    while i < n
        invariant
            gif_frames(data@) is Some,
            gspec == gif_frames(data@)->0,
            gspec.len() == raw@.len(),
            n == raw@.len(),
            0 < n,
            forall|j: int|
                0 <= j < raw@.len() ==> {
                    let f = #[trigger] raw@[j];
                    let g = gspec[j];
                    &&& f.0 == g.0
                    &&& f.1 == g.1
                    &&& f.2@ == g.2
                    &&& f.3 == g.3
                    &&& f.4 == g.4
                    &&& f.2@.len() == (f.0 as int) * (f.1 as int) * 4
                },
            w == gspec[0].0,
            h == gspec[0].1,
            0 < w,
            0 < h,
            i <= n,
            frames@.len() == i,
            forall|j: int| 0 <= j < i ==> (#[trigger] gspec[j]).0 == w && gspec[j].1 == h,
            forall|j: int|
                0 <= j < i ==> (#[trigger] frames@[j]).pixels@ == gspec[j].2
                    && frames@[j].delay_ms == normalized_delay(gspec[j].3, gspec[j].4),
        decreases n - i,
    {
        if raw[i].0 != w || raw[i].1 != h {
            return Err(DecodeError::InconsistentFrames);
        }
        let delay = normalize_delay(raw[i].3, raw[i].4);
        let pixels = raw[i].2.clone();
        proof {
            crate::pixels::lemma_u8_vec_clone(raw@[i as int].2, pixels);
        }
        frames.push(FrameData { pixels, delay_ms: delay });
        i = i + 1;
    }
    let img = LoadedImage { width: w, height: h, frames };
    proof {
        assert(frames_consistent(gspec));
        assert forall|j: int| 0 <= j < img.frames@.len() implies crate::pixels::buf_sized(
            #[trigger] img.frames@[j].pixels@,
            img.width as int,
            img.height as int,
        ) by {
            assert(img.frames@[j].pixels@ == gspec[j].2);
            assert(raw@[j].2@ == gspec[j].2);
            assert(raw@[j].2@.len() == (raw@[j].0 as int) * (raw@[j].1 as int) * 4);
            assert(raw@[j].0 == gspec[j].0 && raw@[j].1 == gspec[j].1);
            assert(gspec[j].0 == w && gspec[j].1 == h);
        }
        assert(img.wf());
    }
    Ok(img)
}

/// What the aspect-preserving resampling filter yields for a buffer and a
/// target size; a function of its arguments alone.
pub uninterp spec fn resampled(p: Seq<u8>, w: u32, h: u32, nw: u32, nh: u32) -> Seq<u8>;

/// Relies on image::imageops::resize with the Triangle filter: resamples a
/// `w` by `h` RGBA buffer to exactly `nw` by `nh`.
#[verifier::external_body]
fn resize_rgba(p: &Vec<u8>, w: u32, h: u32, nw: u32, nh: u32) -> (r: Vec<u8>)
    requires
        p@.len() == (w as int) * (h as int) * 4,
        0 < w,
        0 < h,
        0 < nw,
        0 < nh,
    ensures
        r@ == resampled(p@, w, h, nw, nh),
        r@.len() == (nw as int) * (nh as int) * 4,
{
    let buf = image::ImageBuffer::<image::Rgba<u8>, Vec<u8>>::from_raw(w, h, p.clone())
        .expect("buffer length matches dimensions");
    let resized = image::imageops::resize(&buf, nw, nh, image::imageops::FilterType::Triangle);
    resized.into_raw()
}

impl LoadedImage {
    /// Derive an aspect-correct thumbnail from the image's first frame,
    /// fitted into a `size` by `size` box without distorting the aspect
    /// ratio.
    pub fn get_thumbnail(&self, size: u32) -> (r: Option<ThumbnailData>)
        requires
            self.wf(),
        ensures
            r is Some <==> self.frames@.len() > 0,
            r is Some ==> {
                let t = r->0;
                &&& t.wf()
                &&& t.width == fitted_dims(self.width as int, self.height as int, size as int).0
                &&& t.height == fitted_dims(self.width as int, self.height as int, size as int).1
                &&& t.pixels@ == resampled(
                    self.frames@[0].pixels@,
                    self.width,
                    self.height,
                    t.width,
                    t.height,
                )
            },
    {
        if self.frames.len() == 0 {
            return None;
        }
        let (nw, nh) = thumbnail_dims(self.width, self.height, size);
        let pixels = resize_rgba(&self.frames[0].pixels, self.width, self.height, nw, nh);
        Some(ThumbnailData { width: nw, height: nh, pixels })
    }
}

/// Decode raw bytes directly to an aspect-correct thumbnail fitted into a
/// `target_size` box: the full decode's first frame is resampled, which
/// yields the same aspect-correct dimensions as resizing the fully decoded
/// image.
pub fn decode_thumbnail(
    data: &[u8],
    format: ImageFormat,
    target_size: u32,
    fonts: &resvg::usvg::fontdb::Database,
    resources_dir: Option<&str>,
) -> (r: Result<ThumbnailData, DecodeError>)
    ensures
        r is Ok <==> full_decode_ok(data@, format),
        r is Err ==> r->Err_0 == decode_failure(data@, format),
        r is Ok ==> {
            let t = r->Ok_0;
            let dims = full_dims(data@, format);
            &&& t.wf()
            &&& t.width == fitted_dims(dims.0 as int, dims.1 as int, target_size as int).0
            &&& t.height == fitted_dims(dims.0 as int, dims.1 as int, target_size as int).1
        },
        r is Ok && !(format is Svg) ==> r->Ok_0.pixels@ == resampled(
            full_frame_pixels(data@, format, 0),
            full_dims(data@, format).0,
            full_dims(data@, format).1,
            r->Ok_0.width,
            r->Ok_0.height,
        ),
{
    let img = match decode_full(data, format, fonts, resources_dir) {
        Ok(img) => img,
        Err(e) => {
            return Err(e);
        },
    };
    match img.get_thumbnail(target_size) {
        Some(t) => Ok(t),
        None => Err(DecodeError::InvalidData),
    }
}

} // verus!
