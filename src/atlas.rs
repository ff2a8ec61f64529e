use vstd::prelude::*;

verus! {

/// Side of one texture cell in the texture atlas, in texels: 256 plus a one-texel border on each side.
pub const TEXTURE_CELL: u32 = 258;

/// Side of one lightmap block in the lightmap atlas, in texels.
pub const LIGHTMAP_CELL: u32 = 8;

/// `n` is `sqrt(t)` rounded to the nearest integer.
pub open spec fn is_round_sqrt(n: int, t: int) -> bool {
    &&& n >= 0
    &&& n == 0 || (2 * n - 1) * (2 * n - 1) <= 4 * t
    &&& 4 * t < (2 * n + 1) * (2 * n + 1)
}

/// `n` is `sqrt(t)` rounded up.
pub open spec fn is_ceil_sqrt(n: int, t: int) -> bool {
    &&& n >= 0
    &&& t <= n * n
    &&& n == 0 || (n - 1) * (n - 1) < t
}

/// `p` is a power of two (1, 2, 4, ...).
pub open spec fn is_pow2(p: int) -> bool
    decreases p,
{
    if p <= 0 {
        false
    } else if p == 1 {
        true
    } else {
        p % 2 == 0 && is_pow2(p / 2)
    }
}

/// `p` is the smallest power of two that is at least `n`.
pub open spec fn is_pow2_at_least(p: int, n: int) -> bool {
    &&& is_pow2(p)
    &&& n <= p
    &&& p == 1 || p < 2 * n
}

/// The layout of a square-ish atlas of `count` equal cells of side `cell` texels.
pub open spec fn is_atlas_of(g: AtlasGeometry, count: int, cell: int) -> bool {
    &&& is_round_sqrt(g.cols as int, count)
    &&& is_ceil_sqrt(g.rows as int, count)
    &&& is_pow2_at_least(g.width as int, g.cols * cell)
    &&& is_pow2_at_least(g.height as int, g.rows * cell)
}

/// Column and row of entry `i` in a grid of `cols` columns; both are 0 when `cols` is 0.
pub open spec fn grid_cell(i: int, cols: int) -> (int, int) {
    if cols == 0 {
        (0, 0)
    } else {
        (i % cols, i / cols)
    }
}

/// Grid and pixel size of an atlas.
#[derive(Debug, Clone, Copy, PartialEq, Eq, Structural)]
pub struct AtlasGeometry {
    /// Cells per row.
    pub cols: u32,
    /// Rows of cells.
    pub rows: u32,
    /// Atlas width in texels.
    pub width: u32,
    /// Atlas height in texels.
    pub height: u32,
}

/// The largest `s` with `s * s <= t`.
fn floor_sqrt(t: u32) -> (s: u32)
    ensures
        s as int * s as int <= t as int,
        (t as int) < (s as int + 1) * (s as int + 1),
        s <= 65535,
{
    let mut s: u64 = 0;
    loop
        invariant
            s * s <= t as int,
            s <= 65535,
        ensures
            s * s <= t as int,
            (t as int) < (s + 1) * (s + 1),
            s <= 65535,
        decreases t as int - s * s,
    {
        let s1 = s + 1;
        assert(s1 * s1 <= 65536 * 65536) by (nonlinear_arith)
            requires
                s1 <= 65536,
        ;
        if s1 * s1 > t as u64 {
            break;
        }
        proof {
            assert(s1 <= 65535) by (nonlinear_arith)
                requires
                    s1 * s1 <= t as int,
                    t <= u32::MAX,
            ;
            assert(s1 * s1 > s * s) by (nonlinear_arith)
                requires
                    s1 == s + 1,
            ;
        }
        s = s1;
    }
    s as u32
}

/// `sqrt(t)` rounded to the nearest integer.
pub fn round_sqrt(t: u32) -> (n: u32)
    ensures
        is_round_sqrt(n as int, t as int),
        n <= 65536,
{
    let s = floor_sqrt(t);
    let s64 = s as u64;
    if (t as u64) > s64 * s64 + s64 {
        proof {
            let si = s as int;
            let ti = t as int;
            assert(is_round_sqrt(si + 1, ti)) by (nonlinear_arith)
                requires
                    ti > si * si + si,
                    ti < (si + 1) * (si + 1),
                    si >= 0,
            ;
        }
        s + 1
    } else {
        proof {
            let si = s as int;
            let ti = t as int;
            assert(is_round_sqrt(si, ti)) by (nonlinear_arith)
                requires
                    ti <= si * si + si,
                    si * si <= ti,
                    si >= 0,
            ;
        }
        s
    }
}

/// `sqrt(t)` rounded up.
pub fn ceil_sqrt(t: u32) -> (n: u32)
    ensures
        is_ceil_sqrt(n as int, t as int),
        n <= 65536,
{
    let s = floor_sqrt(t);
    if (s as u64) * (s as u64) == t as u64 {
        proof {
            let si = s as int;
            assert(si == 0 || (si - 1) * (si - 1) < si * si) by (nonlinear_arith)
                requires
                    si >= 0,
            ;
        }
        s
    } else {
        proof {
            let si = s as int;
            let ti = t as int;
            assert(is_ceil_sqrt(si + 1, ti)) by (nonlinear_arith)
                requires
                    si * si <= ti,
                    si * si != ti,
                    ti < (si + 1) * (si + 1),
                    si >= 0,
            ;
        }
        s + 1
    }
}

/// The smallest power of two that is at least `n`.
pub fn pow2_at_least(n: u32) -> (p: u32)
    requires
        n <= 0x8000_0000,
    ensures
        is_pow2_at_least(p as int, n as int),
{
    let mut p: u64 = 1;
    while p < n as u64
        invariant
            is_pow2(p as int),
            1 <= p <= 0x1_0000_0000,
            p == 1 || (p as int) < 2 * n as int,
            n <= 0x8000_0000,
        decreases 0x1_0000_0000 - p as int,
    {
        assert(is_pow2(2 * p as int)) by {
            assert((2 * p as int) / 2 == p as int);
        }
        p = p * 2;
    }
    p as u32
}

/// The layout of an atlas holding `count` cells of side `cell` texels: `round(sqrt(count))` columns,
/// `ceil(sqrt(count))` rows, each side the next power of two that holds its cells.
pub fn atlas_geometry(count: u32, cell: u32) -> (g: AtlasGeometry)
    requires
        1 <= cell <= TEXTURE_CELL,
    ensures
        is_atlas_of(g, count as int, cell as int),
{
    let cols = round_sqrt(count);
    let rows = ceil_sqrt(count);
    assert(cols as int * cell as int <= 65536 * 258) by (nonlinear_arith)
        requires
            cols <= 65536,
            cell <= 258,
    ;
    assert(rows as int * cell as int <= 65536 * 258) by (nonlinear_arith)
        requires
            rows <= 65536,
            cell <= 258,
    ;
    let width = pow2_at_least(cols * cell);
    let height = pow2_at_least(rows * cell);
    AtlasGeometry { cols, rows, width, height }
}

/// The atlas that packs `count` distinct textures.
pub fn texture_atlas_geometry(count: u32) -> (g: AtlasGeometry)
    ensures
        is_atlas_of(g, count as int, TEXTURE_CELL as int),
{
    atlas_geometry(count, TEXTURE_CELL)
}

/// The atlas that packs `count` lightmap blocks.
pub fn lightmap_atlas_geometry(count: u32) -> (g: AtlasGeometry)
    ensures
        is_atlas_of(g, count as int, LIGHTMAP_CELL as int),
{
    atlas_geometry(count, LIGHTMAP_CELL)
}

/// Column and row of entry `i` in a grid of `cols` columns (0 and 0 when `cols` is 0).
pub fn cell_of(i: u32, cols: u32) -> (r: (u32, u32))
    ensures
        (r.0 as int, r.1 as int) == grid_cell(i as int, cols as int),
{
    if cols == 0 {
        (0, 0)
    } else {
        (i % cols, i / cols)
    }
}

/// Lightmap coordinates of one block, as texel numerators: the horizontal coordinates are
/// `u1 / width` and `u2 / width` of the lightmap atlas, the vertical ones `v1 / height` and
/// `v2 / height`. They bound the window from 0.125 to 0.875 of the block's cell, which keeps
/// bilinear filtering from reaching a neighbouring block.
#[derive(Debug, Clone, Copy, PartialEq, Eq, Structural)]
pub struct LightmapWindow {
    pub u1: u32,
    pub u2: u32,
    pub v1: u32,
    pub v2: u32,
}

/// The window of lightmap block `light` in a lightmap atlas of `cols` columns.
pub open spec fn lightmap_window_of(light: int, cols: int) -> LightmapWindow {
    let (c, r) = grid_cell(light, cols);
    LightmapWindow {
        u1: (8 * c + 1) as u32,
        u2: (8 * c + 7) as u32,
        v1: (8 * r + 1) as u32,
        v2: (8 * r + 7) as u32,
    }
}

/// The window of lightmap block `light` in the lightmap atlas `g`.
pub fn lightmap_window(light: u16, g: &AtlasGeometry) -> (w: LightmapWindow)
    requires
        g.cols <= 65536,
    ensures
        w == lightmap_window_of(light as int, g.cols as int),
{
    let (c, r) = cell_of(light as u32, g.cols);
    LightmapWindow { u1: 8 * c + 1, u2: 8 * c + 7, v1: 8 * r + 1, v2: 8 * r + 7 }
}

/// Fifths of a water texture repeat at grid coordinate `c` and at `c + 1`: the first is `c % 5`,
/// the second is `(c + 1) % 5` except that a boundary there counts as 5, so that a repeat ends at
/// a full texture rather than restarting at 0.
pub open spec fn water_steps_of(c: int) -> (int, int) {
    (c % 5, if (c + 1) % 5 == 0 { 5 } else { (c + 1) % 5 })
}

/// Texture fifths of the water quad edge that runs from grid coordinate `c` to `c + 1`.
pub fn water_steps(c: u32) -> (r: (u32, u32))
    requires
        c < u32::MAX,
    ensures
        (r.0 as int, r.1 as int) == water_steps_of(c as int),
{
    let hi = (c + 1) % 5;
    (c % 5, if hi == 0 { 5 } else { hi })
}

/// Of two powers of two, the larger is at least twice the smaller.
pub proof fn lemma_pow2_gap(a: int, b: int)
    requires
        is_pow2(a),
        is_pow2(b),
        a < b,
    ensures
        2 * a <= b,
    decreases b,
{
    if a > 1 {
        lemma_pow2_gap(a / 2, b / 2);
    }
}

/// The layout of an atlas is determined by its cell count and cell size.
pub proof fn lemma_atlas_unique(g1: AtlasGeometry, g2: AtlasGeometry, count: int, cell: int)
    requires
        is_atlas_of(g1, count, cell),
        is_atlas_of(g2, count, cell),
    ensures
        g1 == g2,
{
    let (a, b) = (g1.cols as int, g2.cols as int);
    assert(a == b) by (nonlinear_arith)
        requires
            is_round_sqrt(a, count),
            is_round_sqrt(b, count),
    ;
    let (a, b) = (g1.rows as int, g2.rows as int);
    assert(a == b) by (nonlinear_arith)
        requires
            is_ceil_sqrt(a, count),
            is_ceil_sqrt(b, count),
    ;
    if g1.width < g2.width {
        lemma_pow2_gap(g1.width as int, g2.width as int);
    } else if g2.width < g1.width {
        lemma_pow2_gap(g2.width as int, g1.width as int);
    }
    if g1.height < g2.height {
        lemma_pow2_gap(g1.height as int, g2.height as int);
    } else if g2.height < g1.height {
        lemma_pow2_gap(g2.height as int, g1.height as int);
    }
}

} // verus!
