use vstd::prelude::*;

verus! {

use crate::raster::{Raster, MAX_DIM};

/// Mirror reflection of coordinate `c` into `0 .. len`: a coordinate pushed
/// below zero reflects to its absolute value; one pushed past `len - 1`
/// reflects back by its overshoot, so the raster continues past its edges
/// as its own mirror image rather than clamping or wrapping.
pub open spec fn mirror(c: int, len: int) -> int {
    if c < 0 {
        -c
    } else if c > len - 1 {
        2 * len - c - 1
    } else {
        c
    }
}

/// The coordinates a single reflection brings back into `0 .. len`.
pub open spec fn reflectable(c: int, len: int) -> bool {
    1 <= len && -(len - 1) <= c <= 2 * len - 1
}

/// Mirror reflection of one coordinate, on machine integers.
pub fn mirror_index(c: i64, len: usize) -> (r: usize)
    requires
        len <= MAX_DIM,
        reflectable(c as int, len as int),
    ensures
        r == mirror(c as int, len as int),
        r < len,
{
    let n = len as i64;
    if c < 0 {
        (-c) as usize
    } else if c > n - 1 {
        (2 * n - c - 1) as usize
    } else {
        c as usize
    }
}

impl Raster {
    /// Boundary-extended lookup index: offsets the pixel at column `x`, row
    /// `y` by the dilated distances `(x_distance, y_distance)` and mirrors
    /// each coordinate that leaves the raster back into range.  Returns
    /// `[row, column]`.
    pub fn compute_extended_index(&self, x: usize, y: usize, x_distance: i64, y_distance: i64) -> (r:
        [usize; 2])
        requires
            self@.wf(),
            x < self@.width,
            y < self@.height,
            reflectable(x + x_distance, self@.width),
            reflectable(y + y_distance, self@.height),
        ensures
            r[0] == mirror(y + y_distance, self@.height),
            r[1] == mirror(x + x_distance, self@.width),
            r[0] < self@.height,
            r[1] < self@.width,
    {
        let my = mirror_index(y as i64 + y_distance, self.height());
        let mx = mirror_index(x as i64 + x_distance, self.width());
        [my, mx]
    }
}

} // verus!
