//! The rules that turn a decoded raster image into a height field.
//!
//! A pixel's elevation is its brightest channel over 255, scaled by
//! `max(width, height) / 32`; pure green or blue pixels (red channel zero,
//! brightest channel positive) get up to 1/255 of uniform noise first. The
//! image's first row is its top, so the field is stored with `invert_y` set.
use vstd::prelude::*;
use crate::error::ReadError;
use crate::float_bits::ONE_BITS;
use crate::heightmap::Heightmap;

verus! {

pub open spec fn max_channel(r: u8, g: u8, b: u8) -> u8 {
    if r >= g && r >= b {
        r
    } else if g >= b {
        g
    } else {
        b
    }
}

/// The brightest of the three channels.
pub fn brightest_channel(r: u8, g: u8, b: u8) -> (m: u8)
    ensures
        m == max_channel(r, g, b),
        m >= r && m >= g && m >= b,
        m == r || m == g || m == b,
{
    if r >= g && r >= b {
        r
    } else if g >= b {
        g
    } else {
        b
    }
}

/// Whether the pixel gets noise: its red channel is zero and its brightest is not.
pub fn is_dithered(r: u8, g: u8, b: u8) -> (d: bool)
    ensures
        d == (r == 0 && max_channel(r, g, b) > 0),
        d == (r == 0 && (g > 0 || b > 0)),
{
    r == 0 && brightest_channel(r, g, b) > 0
}

/// The factor's numerator in the elevation scale `extent / 32`: the larger side.
pub fn image_extent(width: u32, height: u32) -> (e: u32)
    ensures
        e == if width >= height { width } else { height },
{
    if width >= height { width } else { height }
}

/// The height field of a `width` by `height` image whose pixel elevations,
/// row by row from the top, are the bit patterns `elevations`: unit scales
/// and inverted rows. Fails with `ReadError::Image` where a side does not fit
/// an `i32` or there is not one elevation per pixel.
pub fn read_heightmap_image(width: u32, height: u32, elevations: Vec<u32>) -> (r: Result<Heightmap, ReadError>)
    ensures
        r.is_ok() <==> (width <= i32::MAX && height <= i32::MAX
            && elevations@.len() == width as int * height as int),
        r matches Err(e) ==> e == ReadError::Image,
        r matches Ok(hm) ==> {
            &&& hm.wf()
            &&& hm.width == width && hm.height == height
            &&& hm.scale_x == ONE_BITS && hm.scale_y == ONE_BITS
            &&& hm.samples@ == elevations@
            &&& hm.invert_y
        },
{
    if width > i32::MAX as u32 || height > i32::MAX as u32 {
        return Err(ReadError::Image);
    }
    match Heightmap::new(width as i32, height as i32, ONE_BITS, ONE_BITS, elevations, true) {
        Some(hm) => Ok(hm),
        None => Err(ReadError::Image),
    }
}

} // verus!
