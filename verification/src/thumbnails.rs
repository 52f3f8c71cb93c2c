//! Thumbnail geometry: choosing the crop rectangle.
//!
//! Before an image is resized to a thumbnail, a sub-rectangle of the
//! original is chosen so that the crop is centered, as large as possible,
//! and has the thumbnail's aspect ratio. Only the geometry lives here; the
//! decoding, resizing and re-encoding of pixels belong to the surrounding
//! application.

use vstd::prelude::*;
use vstd::math::min;

verus! {

/// The crop rectangle (left, top, width, height) for an original image of
/// `ow` by `oh` pixels and a target of `tw` by `th`: full height and a
/// rounded proportional width when the original is wider than the target,
/// full width and a rounded proportional height when it is narrower, in
/// both cases centered along the cropped axis.
pub open spec fn spec_crop_coordinates(ow: int, oh: int, tw: int, th: int) -> (int, int, int,
    int)
    recommends
        ow > 0,
        oh > 0,
        tw > 0,
        th > 0,
{
    if ow * th > tw * oh {
        let w = min(ow, (tw * oh + th / 2) / th);
        ((ow - w) / 2, 0, w, oh)
    } else {
        let h = min(oh, (th * ow + tw / 2) / tw);
        (0, (oh - h) / 2, ow, h)
    }
}

/// Given the original image size and the target thumbnail size, finds the
/// sub-rectangle (left, top, width, height) of the original so that the
/// crop is centered, maximally sized and keeps the target's aspect ratio
/// up to rounding.
pub fn crop_coordinates(orig_size: (u32, u32), target_size: (u32, u32)) -> (r: (u32, u32, u32,
    u32))
    requires
        orig_size.0 > 0,
        orig_size.1 > 0,
        target_size.0 > 0,
        target_size.1 > 0,
    ensures
        ({
            let m = spec_crop_coordinates(orig_size.0 as int, orig_size.1 as int,
                target_size.0 as int, target_size.1 as int);
            &&& r.0 as int == m.0
            &&& r.1 as int == m.1
            &&& r.2 as int == m.2
            &&& r.3 as int == m.3
        }),
        r.0 + r.2 <= orig_size.0,
        r.1 + r.3 <= orig_size.1,
        r.2 == orig_size.0 || r.3 == orig_size.1,
        2 * r.0 <= orig_size.0 - r.2 <= 2 * r.0 + 1,
        2 * r.1 <= orig_size.1 - r.3 <= 2 * r.1 + 1,
{
    let ow: u64 = orig_size.0 as u64;
    let oh: u64 = orig_size.1 as u64;
    let tw: u64 = target_size.0 as u64;
    let th: u64 = target_size.1 as u64;
    proof {
        assert(ow * th <= 0xffffffffu64 * 0xffffffffu64) by (nonlinear_arith)
            requires
                ow <= 0xffffffffu64,
                th <= 0xffffffffu64,
        ;
        assert(tw * oh <= 0xffffffffu64 * 0xffffffffu64) by (nonlinear_arith)
            requires
                tw <= 0xffffffffu64,
                oh <= 0xffffffffu64,
        ;
        assert(th * ow <= 0xffffffffu64 * 0xffffffffu64) by (nonlinear_arith)
            requires
                th <= 0xffffffffu64,
                ow <= 0xffffffffu64,
        ;
    }
    if ow * th > tw * oh {
        // Original is wider than the target: keep the full height.
        let height = orig_size.1;
        let wide: u64 = (tw * oh + th / 2) / th;
        let width: u32 = if wide > ow {
            orig_size.0
        } else {
            wide as u32
        };
        let x = (orig_size.0 - width) / 2;
        (x, 0, width, height)
    } else {
        // Original is narrower than the target: keep the full width.
        let width = orig_size.0;
        let tall: u64 = (th * ow + tw / 2) / tw;
        let height: u32 = if tall > oh {
            orig_size.1
        } else {
            tall as u32
        };
        let y = (orig_size.1 - height) / 2;
        (0, y, width, height)
    }
}

} // verus!
