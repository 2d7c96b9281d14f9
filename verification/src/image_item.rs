//! The pipeline's data model: per-file metadata records, decoded frames,
//! full images and thumbnails, and the geometric mutations that act on
//! every frame of a loaded image.

use vstd::prelude::*;
use crate::format::ImageFormat;
use crate::pixels::{
    buf_sized, flip_h_buffer, flip_v_buffer, flipped_h, flipped_v, rotate_ccw_buffer,
    rotate_cw_buffer, rotated_ccw, rotated_cw,
};

verus! {

/// Lightweight metadata for one discovered file: created during discovery,
/// immutable once created, and the record the consumer builds its visible
/// list from.
#[derive(Debug, Clone)]
pub struct ImageItem {
    pub path: String,
    pub width: u32,
    pub height: u32,
    pub format: ImageFormat,
}

/// One decoded frame: a dense row-major RGBA buffer and its display delay.
/// A delay of `u64::MAX` milliseconds stands for a static frame that is
/// never advanced.
#[derive(Debug, Clone)]
pub struct FrameData {
    pub pixels: Vec<u8>,
    pub delay_ms: u64,
}

/// A fully materialized image: dimensions and the ordered frames.
#[derive(Debug, Clone)]
pub struct LoadedImage {
    pub width: u32,
    pub height: u32,
    pub frames: Vec<FrameData>,
}

/// A derived, disposable reduced-resolution image.
#[derive(Debug, Clone)]
pub struct ThumbnailData {
    pub width: u32,
    pub height: u32,
    pub pixels: Vec<u8>,
}

impl ThumbnailData {
    /// The thumbnail's buffer holds exactly its pixels.
    pub open spec fn wf(self) -> bool {
        buf_sized(self.pixels@, self.width as int, self.height as int)
    }
}

impl LoadedImage {
    /// Dimensions are positive and every frame's buffer holds exactly
    /// `width * height` RGBA pixels.
    pub open spec fn wf(self) -> bool {
        &&& 0 < self.width
        &&& 0 < self.height
        &&& forall|i: int|
            0 <= i < self.frames@.len() ==> buf_sized(
                #[trigger] self.frames@[i].pixels@,
                self.width as int,
                self.height as int,
            )
    }

    /// Rotate every frame a quarter turn, clockwise or counter-clockwise,
    /// swapping the image's width and height.
    pub fn rotate(&mut self, clockwise: bool)
        requires
            old(self).wf(),
        ensures
            final(self).wf(),
            final(self).width == old(self).height,
            final(self).height == old(self).width,
            final(self).frames@.len() == old(self).frames@.len(),
            forall|i: int|
                0 <= i < old(self).frames@.len() ==> #[trigger] final(self).frames@[i].delay_ms
                    == old(self).frames@[i].delay_ms,
            clockwise ==> forall|i: int|
                0 <= i < old(self).frames@.len() ==> #[trigger] final(self).frames@[i].pixels@
                    == rotated_cw(
                    old(self).frames@[i].pixels@,
                    old(self).width as int,
                    old(self).height as int,
                ),
            !clockwise ==> forall|i: int|
                0 <= i < old(self).frames@.len() ==> #[trigger] final(self).frames@[i].pixels@
                    == rotated_ccw(
                    old(self).frames@[i].pixels@,
                    old(self).width as int,
                    old(self).height as int,
                ),
    {
        let w = self.width;
        let h = self.height;
        let n = self.frames.len();
        let mut rotated: Vec<FrameData> = Vec::new();
        let mut i: usize = 0;
        while i < n
            invariant
                old(self).wf(),
                *self == *old(self),
                w == old(self).width,
                h == old(self).height,
                n == old(self).frames@.len(),
                i <= n,
                rotated@.len() == i,
                forall|j: int|
                    0 <= j < i ==> #[trigger] rotated@[j].delay_ms
                        == old(self).frames@[j].delay_ms,
                clockwise ==> forall|j: int|
                    0 <= j < i ==> #[trigger] rotated@[j].pixels@ == rotated_cw(
                        old(self).frames@[j].pixels@,
                        w as int,
                        h as int,
                    ),
                !clockwise ==> forall|j: int|
                    0 <= j < i ==> #[trigger] rotated@[j].pixels@ == rotated_ccw(
                        old(self).frames@[j].pixels@,
                        w as int,
                        h as int,
                    ),
            decreases n - i,
        {
            let source = &self.frames[i];
            let fresh = if clockwise {
                rotate_cw_buffer(&source.pixels, w, h)
            } else {
                rotate_ccw_buffer(&source.pixels, w, h)
            };
            rotated.push(FrameData { pixels: fresh, delay_ms: source.delay_ms });
            i = i + 1;
        }
        self.frames = rotated;
        self.width = h;
        self.height = w;
        proof {
            assert forall|j: int| 0 <= j < final(self).frames@.len() implies buf_sized(
                #[trigger] final(self).frames@[j].pixels@,
                h as int,
                w as int,
            ) by {
                assert((w as int) * (h as int) * 4 == (h as int) * (w as int) * 4)
                    by (nonlinear_arith);
            }
        }
    }

    /// Mirror every frame left-to-right; dimensions are kept.
    pub fn flip_horizontal(&mut self)
        requires
            old(self).wf(),
        ensures
            final(self).wf(),
            final(self).width == old(self).width,
            final(self).height == old(self).height,
            final(self).frames@.len() == old(self).frames@.len(),
            forall|i: int|
                0 <= i < old(self).frames@.len() ==> #[trigger] final(self).frames@[i].delay_ms
                    == old(self).frames@[i].delay_ms,
            forall|i: int|
                0 <= i < old(self).frames@.len() ==> #[trigger] final(self).frames@[i].pixels@
                    == flipped_h(
                    old(self).frames@[i].pixels@,
                    old(self).width as int,
                    old(self).height as int,
                ),
    {
        let w = self.width;
        let h = self.height;
        let n = self.frames.len();
        let mut flipped: Vec<FrameData> = Vec::new();
        let mut i: usize = 0;
        while i < n
            invariant
                old(self).wf(),
                *self == *old(self),
                w == old(self).width,
                h == old(self).height,
                n == old(self).frames@.len(),
                i <= n,
                flipped@.len() == i,
                forall|j: int|
                    0 <= j < i ==> #[trigger] flipped@[j].delay_ms
                        == old(self).frames@[j].delay_ms,
                forall|j: int|
                    0 <= j < i ==> #[trigger] flipped@[j].pixels@ == flipped_h(
                        old(self).frames@[j].pixels@,
                        w as int,
                        h as int,
                    ),
            decreases n - i,
        {
            let source = &self.frames[i];
            let fresh = flip_h_buffer(&source.pixels, w, h);
            flipped.push(FrameData { pixels: fresh, delay_ms: source.delay_ms });
            i = i + 1;
        }
        self.frames = flipped;
    }

    /// Mirror every frame top-to-bottom; dimensions are kept.
    pub fn flip_vertical(&mut self)
        requires
            old(self).wf(),
        ensures
            final(self).wf(),
            final(self).width == old(self).width,
            final(self).height == old(self).height,
            final(self).frames@.len() == old(self).frames@.len(),
            forall|i: int|
                0 <= i < old(self).frames@.len() ==> #[trigger] final(self).frames@[i].delay_ms
                    == old(self).frames@[i].delay_ms,
            forall|i: int|
                0 <= i < old(self).frames@.len() ==> #[trigger] final(self).frames@[i].pixels@
                    == flipped_v(
                    old(self).frames@[i].pixels@,
                    old(self).width as int,
                    old(self).height as int,
                ),
    {
        let w = self.width;
        let h = self.height;
        let n = self.frames.len();
        let mut flipped: Vec<FrameData> = Vec::new();
        let mut i: usize = 0;
        while i < n
            invariant
                old(self).wf(),
                *self == *old(self),
                w == old(self).width,
                h == old(self).height,
                n == old(self).frames@.len(),
                i <= n,
                flipped@.len() == i,
                forall|j: int|
                    0 <= j < i ==> #[trigger] flipped@[j].delay_ms
                        == old(self).frames@[j].delay_ms,
                forall|j: int|
                    0 <= j < i ==> #[trigger] flipped@[j].pixels@ == flipped_v(
                        old(self).frames@[j].pixels@,
                        w as int,
                        h as int,
                    ),
            decreases n - i,
        {
            let source = &self.frames[i];
            let fresh = flip_v_buffer(&source.pixels, w, h);
            flipped.push(FrameData { pixels: fresh, delay_ms: source.delay_ms });
            i = i + 1;
        }
        self.frames = flipped;
    }
}

/// Total pixel bytes of a frame sequence, saturating at `u64::MAX`.
pub open spec fn frames_bytes_sat(frames: Seq<FrameData>) -> int
    decreases frames.len(),
{
    if frames.len() == 0 {
        0
    } else {
        let rest = frames_bytes_sat(frames.drop_last());
        let total = rest + frames.last().pixels@.len();
        if total > u64::MAX {
            u64::MAX as int
        } else {
            total
        }
    }
}

/// The cache weight of an image in whole kibibytes, never zero.
pub open spec fn image_weight_kb(img: LoadedImage) -> int {
    let kb = frames_bytes_sat(img.frames@) / 1024;
    if kb < 1 {
        1
    } else {
        kb
    }
}

impl LoadedImage {
    /// Approximate memory footprint in kibibytes, used as the cache weight.
    pub fn size_in_kb(&self) -> (r: u64)
        ensures
            r == image_weight_kb(*self),
    {
        let n = self.frames.len();
        let mut total: u64 = 0;
        let mut i: usize = 0;
        while i < n
            invariant
                n == self.frames@.len(),
                i <= n,
                total == frames_bytes_sat(self.frames@.subrange(0, i as int)),
            decreases n - i,
        {
            let len64: u64 = self.frames[i].pixels.len() as u64;
            total = match total.checked_add(len64) {
                Some(t) => t,
                None => u64::MAX,
            };
            proof {
                assert(self.frames@.subrange(0, i + 1).drop_last() =~= self.frames@.subrange(
                    0,
                    i as int,
                ));
                assert(self.frames@.subrange(0, i + 1).last() == self.frames@[i as int]);
            }
            i = i + 1;
        }
        proof {
            assert(self.frames@.subrange(0, n as int) =~= self.frames@);
        }
        let kb: u64 = total / 1024;
        if kb < 1 {
            1
        } else {
            kb
        }
    }
}

/// The aspect-preserving dimensions of a thumbnail of a `w` by `h` image
/// fitted into a `target` by `target` box; each side is at least one pixel.
pub open spec fn fitted_dims(w: int, h: int, target: int) -> (int, int) {
    if w >= h {
        (
            if target < 1 {
                1
            } else {
                target
            },
            if target * h / w < 1 {
                1
            } else {
                target * h / w
            },
        )
    } else {
        (
            if target * w / h < 1 {
                1
            } else {
                target * w / h
            },
            if target < 1 {
                1
            } else {
                target
            },
        )
    }
}

/// Compute the aspect-preserving thumbnail dimensions: the longer side
/// takes the target length and the shorter side is scaled to keep the
/// aspect ratio, never distorting it, with a one-pixel floor.
pub fn thumbnail_dims(w: u32, h: u32, target: u32) -> (r: (u32, u32))
    requires
        0 < w,
        0 < h,
    ensures
        r.0 == fitted_dims(w as int, h as int, target as int).0,
        r.1 == fitted_dims(w as int, h as int, target as int).1,
        0 < r.0,
        0 < r.1,
        r.0 <= target || r.0 == 1,
        r.1 <= target || r.1 == 1,
    {
    if w >= h {
        proof {
            assert((target as int) * (h as int) < 0x10000000000000000) by (nonlinear_arith)
                requires
                    (target as int) < 0x100000000,
                    (h as int) < 0x100000000,
                    0 <= target as int,
                    0 <= h as int,
            ;
        }
        let scaled64: u64 = (target as u64) * (h as u64) / (w as u64);
        proof {
            assert((target as int) * (h as int) / (w as int) <= target as int)
                by (nonlinear_arith)
                requires
                    0 < w as int,
                    0 < h as int,
                    h as int <= w as int,
                    0 <= target as int,
            ;
            assert(scaled64 == (target as int) * (h as int) / (w as int));
        }
        let scaled: u32 = scaled64 as u32;
        let nw: u32 = if target < 1 {
            1
        } else {
            target
        };
        let nh: u32 = if scaled < 1 {
            1
        } else {
            scaled
        };
        (nw, nh)
    } else {
        proof {
            assert((target as int) * (w as int) < 0x10000000000000000) by (nonlinear_arith)
                requires
                    (target as int) < 0x100000000,
                    (w as int) < 0x100000000,
                    0 <= target as int,
                    0 <= w as int,
            ;
        }
        let scaled64: u64 = (target as u64) * (w as u64) / (h as u64);
        proof {
            assert((target as int) * (w as int) / (h as int) <= target as int)
                by (nonlinear_arith)
                requires
                    0 < w as int,
                    0 < h as int,
                    w as int <= h as int,
                    0 <= target as int,
            ;
            assert(scaled64 == (target as int) * (w as int) / (h as int));
        }
        let scaled: u32 = scaled64 as u32;
        let nw: u32 = if scaled < 1 {
            1
        } else {
            scaled
        };
        let nh: u32 = if target < 1 {
            1
        } else {
            target
        };
        (nw, nh)
    }
}

} // verus!
