use vstd::prelude::*;

verus! {

pub open spec fn spec_clamp(input: int, min: int, max: int) -> int {
    if input < min {
        min
    } else if input > max {
        max
    } else {
        input
    }
}

/// `input` limited to the range `min..=max`.
pub fn clamp(input: i64, min: i64, max: i64) -> (r: i64)
    requires
        min <= max,
    ensures
        r == spec_clamp(input as int, min as int, max as int),
        min <= r <= max,
{
    if input < min {
        min
    } else if input > max {
        max
    } else {
        input
    }
}

/// The bitmap pixel that an image texture samples, from the column and row
/// computed from the surface coordinates: each is clamped into the bitmap.
pub fn texel_coords(column: i64, row: i64, width: u32, height: u32) -> (r: (u32, u32))
    requires
        width > 0,
        height > 0,
    ensures
        r.0 == spec_clamp(column as int, 0, width - 1),
        r.1 == spec_clamp(row as int, 0, height - 1),
        r.0 < width,
        r.1 < height,
{
    let i = clamp(column, 0, width as i64 - 1);
    let j = clamp(row, 0, height as i64 - 1);
    (i as u32, j as u32)
}

} // verus!
