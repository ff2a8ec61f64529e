use vstd::prelude::*;

use crate::mesh::{col_of, row_of};

verus! {

/// The 32-bit float with bit pattern `bits` is a NaN: all exponent bits set, mantissa not zero.
pub open spec fn f32_is_nan(bits: u32) -> bool {
    (bits as int / 0x80_0000) % 256 == 255 && bits as int % 0x80_0000 != 0
}

/// Position of a float that is not a NaN on the number line, read off its bit pattern: the
/// magnitude bits, negated when the sign bit is set. Both zeros map to 0, and the floats compare
/// as their positions do.
pub open spec fn f32_order(bits: u32) -> int {
    if bits >= 0x8000_0000 {
        0x8000_0000 - bits as int
    } else {
        bits as int
    }
}

/// `a > b` for the 32-bit floats with these bit patterns; false when either is a NaN.
pub open spec fn f32_gt(a: u32, b: u32) -> bool {
    !f32_is_nan(a) && !f32_is_nan(b) && f32_order(a) > f32_order(b)
}

/// Compares two 32-bit floats given by their bit patterns: whether `a > b`.
pub fn f32_greater(a: u32, b: u32) -> (r: bool)
    ensures
        r == f32_gt(a, b),
{
    let a_nan = (a / 0x80_0000) % 256 == 255 && a % 0x80_0000 != 0;
    let b_nan = (b / 0x80_0000) % 256 == 255 && b % 0x80_0000 != 0;
    if a_nan || b_nan {
        return false;
    }
    let oa: i64 = if a >= 0x8000_0000 {
        0x8000_0000 - a as i64
    } else {
        a as i64
    };
    let ob: i64 = if b >= 0x8000_0000 {
        0x8000_0000 - b as i64
    } else {
        b as i64
    };
    oa > ob
}

/// A cell gets a water quad when one of its corners, at heights `h` (bit patterns of world-unit
/// floats), lies above the float `floor`. Whether the cell has ground tiles does not matter.
pub open spec fn cell_has_water(h: Seq<u32>, floor: u32) -> bool {
    exists|k: int| 0 <= k < 4 && f32_gt(h[k], floor)
}

/// One water quad, at the cell in column `x`, row `y`.
#[derive(Debug, Clone, Copy, PartialEq, Eq, Structural)]
pub struct WaterQuad {
    pub x: u32,
    pub y: u32,
}

/// Water quads of the first `n` cells of a grid `w` wide, in row-major order.
pub open spec fn water_upto(heights: Seq<[u32; 4]>, floor: u32, w: int, n: int) -> Seq<WaterQuad>
    decreases n,
{
    if n <= 0 {
        Seq::empty()
    } else {
        let rest = water_upto(heights, floor, w, n - 1);
        if cell_has_water(heights[n - 1]@, floor) {
            rest.push(WaterQuad { x: col_of(n - 1, w) as u32, y: row_of(n - 1, w) as u32 })
        } else {
            rest
        }
    }
}

/// Decides which cells of a grid `width` cells wide get a water quad. `heights` holds each cell's
/// corner heights in world units, row by row, and `floor` is the water level less the wave
/// height, all as bit patterns of 32-bit floats.
pub fn plan_water(heights: &Vec<[u32; 4]>, floor: u32, width: u32) -> (r: Vec<WaterQuad>)
    requires
        heights@.len() <= width as int * u32::MAX as int,
    ensures
        r@ == water_upto(heights@, floor, width as int, heights@.len() as int),
{
    let n = heights.len();
    let mut out: Vec<WaterQuad> = Vec::new();
    let mut c: usize = 0;
    while c < n
        invariant
            c <= n,
            heights@.len() == n,
            n <= width as int * u32::MAX as int,
            out@ == water_upto(heights@, floor, width as int, c as int),
        decreases n - c,
    {
        let h = &heights[c];
        let mut wet = false;
        let mut k: usize = 0;
        while k < 4
            invariant
                k <= 4,
                wet == exists|q: int| 0 <= q < k && f32_gt(h@[q], floor),
            decreases 4 - k,
        {
            if f32_greater(h[k], floor) {
                wet = true;
            }
            k = k + 1;
        }
        if wet {
            proof {
                let ci = c as int;
                let wi = width as int;
                assert(0 <= ci / wi < u32::MAX && 0 <= ci % wi < wi) by (nonlinear_arith)
                    requires
                        0 <= ci < wi * u32::MAX,
                        wi >= 0,
                ;
            }
            out.push(WaterQuad { x: (c % width as usize) as u32, y: (c / width as usize) as u32 });
        }
        c = c + 1;
    }
    out
}

/// Water only grows as a cell rises: when every corner of `raised` is at least as high as the
/// same corner of `h`, a cell that had a water quad keeps it, and a cell gets one as soon as one
/// corner of `raised` lies above the floor.
pub proof fn lemma_water_monotone(h: Seq<u32>, raised: Seq<u32>, floor: u32)
    requires
        h.len() == 4,
        raised.len() == 4,
        forall|k: int|
            0 <= k < 4 && !f32_is_nan(h[k]) ==> !f32_is_nan(raised[k]) && f32_order(raised[k])
                >= f32_order(h[k]),
    ensures
        cell_has_water(h, floor) ==> cell_has_water(raised, floor),
        (exists|k: int| 0 <= k < 4 && f32_gt(raised[k], floor)) ==> cell_has_water(raised, floor),
{
    if cell_has_water(h, floor) {
        let k = choose|k: int| 0 <= k < 4 && f32_gt(h[k], floor);
        assert(f32_gt(raised[k], floor));
    }
}

} // verus!
