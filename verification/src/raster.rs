//! Bounds on the raster a PNG request may allocate.

use vstd::prelude::*;

use crate::text::{concat3, decimal, decimal_string};

verus! {

/// Largest width or height, in pixels, of a rendered PNG.
pub const MAX_DIMENSION: u32 = 32768;

/// Largest pixel count of a rendered PNG.
pub const MAX_PIXELS: u64 = 100000000;

/// `WxH` in decimal.
pub open spec fn size_text(w: u32, h: u32) -> Seq<char> {
    decimal(w as nat) + "x"@ + decimal(h as nat)
}

/// Why a raster of a given size is refused, if it is: an empty image, a side
/// over [`MAX_DIMENSION`], or more than [`MAX_PIXELS`] pixels, checked in that order.
pub open spec fn raster_refusal(w: u32, h: u32) -> Option<Seq<char>> {
    if w == 0 || h == 0 {
        Some("rendered image has zero size"@)
    } else if w > MAX_DIMENSION || h > MAX_DIMENSION {
        Some("rendered image exceeds 32768px dimension limit ("@ + size_text(w, h) + ")"@)
    } else if w as int * h as int > MAX_PIXELS {
        Some("rendered image exceeds 100000000 pixel limit ("@ + size_text(w, h) + ")"@)
    } else {
        None
    }
}

fn size_string(w: u32, h: u32) -> (out: String)
    ensures
        out@ == size_text(w, h),
{
    let a = decimal_string(w as u128);
    let b = decimal_string(h as u128);
    concat3(a.as_str(), "x", b.as_str())
}

/// Checks the pixel size of a requested raster; the error carries the reason.
pub fn check_raster_size(w: u32, h: u32) -> (r: Result<(), String>)
    ensures
        match r {
            Ok(()) => raster_refusal(w, h) is None,
            Err(msg) => raster_refusal(w, h) == Some(msg@),
        },
{
    if w == 0 || h == 0 {
        return Err(String::from_str("rendered image has zero size"));
    }
    if w > MAX_DIMENSION || h > MAX_DIMENSION {
        let size = size_string(w, h);
        return Err(concat3("rendered image exceeds 32768px dimension limit (", size.as_str(), ")"));
    }
    assert((w as u64) * (h as u64) <= 32768u64 * 32768u64) by (nonlinear_arith)
        requires w <= 32768, h <= 32768;
    if (w as u64) * (h as u64) > MAX_PIXELS {
        let size = size_string(w, h);
        return Err(concat3("rendered image exceeds 100000000 pixel limit (", size.as_str(), ")"));
    }
    Ok(())
}

/// Law: an accepted raster has positive sides of at most [`MAX_DIMENSION`]
/// pixels and at most [`MAX_PIXELS`] pixels in all.
pub proof fn lemma_accepted_raster_is_bounded(w: u32, h: u32)
    requires
        raster_refusal(w, h) is None,
    ensures
        1 <= w <= MAX_DIMENSION,
        1 <= h <= MAX_DIMENSION,
        w as int * h as int <= MAX_PIXELS,
{
}

} // verus!
