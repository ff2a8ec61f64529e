use vstd::prelude::*;

verus! {

/// Offset of neighbour `k` (0, 1 or 2) that a cell's corner normal averages with. Corners are
/// numbered 0 up-left, 1 up-right, 2 bottom-right, 3 bottom-left; the neighbours of a corner are
/// the cell beside it, the cell diagonal to it and the cell above or below it.
pub open spec fn corner_offset_of(corner: int, k: int) -> (int, int) {
    let sx: int = if corner == 0 || corner == 3 { -1 } else { 1 };
    let sy: int = if corner == 0 || corner == 1 { -1 } else { 1 };
    if k == 0 {
        (sx, 0)
    } else if k == 1 {
        (sx, sy)
    } else {
        (0, sy)
    }
}

/// Offset of neighbour `k` of corner `corner`.
pub fn corner_offset(corner: u8, k: u8) -> (r: (i32, i32))
    requires
        corner < 4,
        k < 3,
    ensures
        (r.0 as int, r.1 as int) == corner_offset_of(corner as int, k as int),
{
    let sx: i32 = if corner == 0 || corner == 3 { -1 } else { 1 };
    let sy: i32 = if corner == 0 || corner == 1 { -1 } else { 1 };
    if k == 0 {
        (sx, 0)
    } else if k == 1 {
        (sx, sy)
    } else {
        (0, sy)
    }
}

/// Index of the cell at `(x + dx, y + dy)` in a `w` by `h` grid, or none when that place is off
/// the grid. An off-grid neighbour adds a zero normal to the sum rather than leaving it.
pub open spec fn neighbor_of(x: int, y: int, dx: int, dy: int, w: int, h: int) -> Option<int> {
    let nx = x + dx;
    let ny = y + dy;
    if 0 <= nx < w && 0 <= ny < h {
        Some(ny * w + nx)
    } else {
        None
    }
}

/// The cell at `(x + dx, y + dy)` of a `width` by `height` grid, if it is on the grid.
pub fn neighbor_cell(x: u32, y: u32, dx: i32, dy: i32, width: u32, height: u32) -> (r: Option<
    usize,
>)
    requires
        -1 <= dx <= 1,
        -1 <= dy <= 1,
        width as int * height as int <= usize::MAX,
    ensures
        r.is_some() == neighbor_of(x as int, y as int, dx as int, dy as int, width as int, height as int).is_some(),
        r.is_some() ==> r.unwrap() as int == neighbor_of(
            x as int,
            y as int,
            dx as int,
            dy as int,
            width as int,
            height as int,
        ).unwrap(),
{
    let nx = x as i64 + dx as i64;
    let ny = y as i64 + dy as i64;
    if nx < 0 || ny < 0 || nx >= width as i64 || ny >= height as i64 {
        return None;
    }
    let (nx, ny) = (nx as usize, ny as usize);
    assert(ny * width + nx < width * height) by (nonlinear_arith)
        requires
            0 <= nx < width,
            0 <= ny < height,
    ;
    Some(ny * (width as usize) + nx)
}

} // verus!
