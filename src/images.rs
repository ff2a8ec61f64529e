use vstd::prelude::*;

use crate::atlas::{is_atlas_of, AtlasGeometry, LIGHTMAP_CELL};
use crate::tables::{LightmapData, Surface, Tile};

verus! {

/// Bytes in one lightmap entry layer that the images read: an 8 by 8 block of one byte per texel.
pub const BLOCK_TEXELS: u32 = 64;

/// Entry `i` of `count` entries of `4 * per_cell` bytes ends within the buffer.
proof fn lemma_entry_fits(i: int, count: int, per_cell: int)
    requires
        0 <= i < count,
        per_cell >= 1,
    ensures
        i * 4 * per_cell + 4 * per_cell <= count * per_cell * 4,
        0 <= i * 4 <= i * 4 * per_cell,
{
    assert(i * 4 <= i * 4 * per_cell) by (nonlinear_arith)
        requires
            0 <= i,
            per_cell >= 1,
    ;
    assert(i * 4 * per_cell + 4 * per_cell <= count * per_cell * 4) by (nonlinear_arith)
        requires
            0 <= i < count,
            per_cell >= 0,
    ;
    assert(0 <= i * 4 * per_cell) by (nonlinear_arith)
        requires
            0 <= i,
            per_cell >= 0,
    ;
}

/// Byte `j` of the lightmap atlas image: RGBA texels, row by row, `g.width` texels to a row. Entry
/// `i` sits in the 8 by 8 block at column `i % cols`, row `i / cols` of the atlas; its RGB comes
/// from the entry's RGB layer with the low four bits of each channel cleared, its alpha from the
/// entry's shadow layer. Texels outside every entry are zero.
pub open spec fn lightmap_byte(data: Seq<u8>, per_cell: int, count: int, g: AtlasGeometry, j: int) -> u8 {
    let p = j / 4;
    let k = j % 4;
    let px = p % g.width as int;
    let py = p / g.width as int;
    let cx = px / 8;
    let cy = py / 8;
    let i = cy * g.cols + cx;
    if cx < g.cols && i < count {
        let base = i * 4 * per_cell;
        let t = px % 8 + (py % 8) * 8;
        if k < 3 {
            (data[base + per_cell + t * 3 + k] / 16 * 16) as u8
        } else {
            data[base + t]
        }
    } else {
        0
    }
}

/// Builds the lightmap atlas image of `lm`, together with the atlas layout `g`; there is none when
/// its byte count, `4 * g.width * g.height`, does not fit in a `usize`.
pub fn create_lightmap_image(lm: &LightmapData, g: &AtlasGeometry) -> (r: Option<Vec<u8>>)
    requires
        lm.wf(),
        lm.count == 0 || lm.per_cell >= BLOCK_TEXELS,
        is_atlas_of(*g, lm.count as int, LIGHTMAP_CELL as int),
    ensures
        r.is_some() <==> g.width as int * g.height as int * 4 <= usize::MAX,
        r.is_some() ==> r.unwrap()@.len() == g.width as int * g.height as int * 4,
        r.is_some() ==> forall|j: int|
            0 <= j < r.unwrap()@.len() ==> r.unwrap()@[j] == lightmap_byte(
                lm.data@,
                lm.per_cell as int,
                lm.count as int,
                *g,
                j,
            ),
{
    let w = g.width as usize;
    let h = g.height as usize;
    let wh = match w.checked_mul(h) {
        Some(v) => v,
        None => {
            assert(w as int * h as int * 4 > usize::MAX) by (nonlinear_arith)
                requires
                    w as int * h as int > usize::MAX,
            ;
            return None;
        },
    };
    let len = match wh.checked_mul(4) {
        Some(v) => v,
        None => return None,
    };
    let cols = g.cols as usize;
    let count = lm.count as usize;
    let per_cell = lm.per_cell as usize;
    let dlen = lm.data.len();
    let mut out: Vec<u8> = Vec::with_capacity(len);
    let mut j: usize = 0;
    while j < len
        invariant
            j <= len,
            len == w * h * 4,
            len <= usize::MAX,
            w == g.width,
            w >= 1,
            cols * 8 <= w,
            cols == g.cols,
            dlen == lm.data@.len(),
            count == lm.count,
            per_cell == lm.per_cell,
            lm.wf(),
            lm.count == 0 || lm.per_cell >= BLOCK_TEXELS,
            out@.len() == j,
            forall|q: int|
                0 <= q < j ==> out@[q] == lightmap_byte(
                    lm.data@,
                    per_cell as int,
                    count as int,
                    *g,
                    q,
                ),
        decreases len - j,
    {
        let p = j / 4;
        let k = j % 4;
        let px = p % w;
        let py = p / w;
        assert(py <= j) by (nonlinear_arith)
            requires
                py == p / w,
                p == j / 4,
                j < len,
                w >= 1,
        ;
        let cx = px / 8;
        let cy = py / 8;
        assert(cy * cols + cx <= j) by (nonlinear_arith)
            requires
                cy == py / 8,
                cx == px / 8,
                px == p % w,
                py == p / w,
                p == j / 4,
                cols * 8 <= w,
                w >= 1,
        ;
        let i = cy * cols + cx;
        let v: u8 = if cx < cols && i < count {
            proof {
                lemma_entry_fits(i as int, count as int, per_cell as int);
            }
            let base = i * 4 * per_cell;
            let t = px % 8 + (py % 8) * 8;
            if k < 3 {
                lm.data[base + per_cell + t * 3 + k] / 16 * 16
            } else {
                lm.data[base + t]
            }
        } else {
            0
        };
        out.push(v);
        j = j + 1;
    }
    Some(out)
}

/// Byte `j` of the tile color image: one RGBA texel per cell, row by row; a cell with a top tile
/// has that tile's color, any other cell is zero.
pub open spec fn tile_color_byte(surfaces: Seq<Surface>, tiles: Seq<Tile>, j: int) -> u8 {
    let s = surfaces[j / 4];
    if s.tile_up != -1 {
        tiles[s.tile_up as int].color@[j % 4]
    } else {
        0
    }
}

/// Every top tile reference of the grid is within `tiles`.
pub open spec fn top_tiles_in(surfaces: Seq<Surface>, tiles: int) -> bool {
    forall|c: int|
        0 <= c < surfaces.len() && surfaces[c].tile_up != -1 ==> 0 <= surfaces[c].tile_up < tiles
}

/// Builds the tile color image of a grid.
pub fn create_tiles_color_image(surfaces: &Vec<Surface>, tiles: &Vec<Tile>) -> (r: Vec<u8>)
    requires
        top_tiles_in(surfaces@, tiles@.len() as int),
        surfaces@.len() * 4 <= usize::MAX,
    ensures
        r@.len() == surfaces@.len() * 4,
        forall|j: int| 0 <= j < r@.len() ==> r@[j] == tile_color_byte(surfaces@, tiles@, j),
        forall|c: int|
            0 <= c < surfaces@.len() && #[trigger] surfaces@[c].tile_up == -1 ==> r@.subrange(
                4 * c,
                4 * c + 4,
            ) == seq![0u8, 0u8, 0u8, 0u8],
{
    let len = surfaces.len() * 4;
    let mut out: Vec<u8> = Vec::with_capacity(len);
    let mut j: usize = 0;
    while j < len
        invariant
            j <= len,
            len == surfaces@.len() * 4,
            top_tiles_in(surfaces@, tiles@.len() as int),
            out@.len() == j,
            forall|q: int| 0 <= q < j ==> out@[q] == tile_color_byte(surfaces@, tiles@, q),
        decreases len - j,
    {
        let s = &surfaces[j / 4];
        let v: u8 = if s.tile_up != -1 {
            tiles[s.tile_up as usize].color[j % 4]
        } else {
            0
        };
        out.push(v);
        j = j + 1;
    }
    assert forall|c: int| 0 <= c < surfaces@.len() && #[trigger] surfaces@[c].tile_up == -1 implies out@.subrange(
        4 * c,
        4 * c + 4,
    ) == seq![0u8, 0u8, 0u8, 0u8] by {
        assert forall|j: int| 4 * c <= j < 4 * c + 4 implies out@[j] == 0u8 by {
            assert(j / 4 == c);
        }
        assert(out@.subrange(4 * c, 4 * c + 4) =~= seq![0u8, 0u8, 0u8, 0u8]);
    }
    out
}

/// Every top tile of the grid exists and names an existing lightmap entry.
pub open spec fn top_lights_in(surfaces: Seq<Surface>, tiles: Seq<Tile>, count: int) -> bool {
    &&& top_tiles_in(surfaces, tiles.len() as int)
    &&& forall|c: int|
        0 <= c < surfaces.len() && surfaces[c].tile_up != -1 ==> tiles[surfaces[c].tile_up as int].light
            < count
}

/// Byte `j` of the shadow map of a grid `width` cells wide: one 8 by 8 block per cell, row by row,
/// `8 * width` bytes to a row. A cell with a top tile takes the shadow layer of that tile's
/// lightmap entry; any other cell is fully lit (255).
pub open spec fn shadow_byte(
    surfaces: Seq<Surface>,
    tiles: Seq<Tile>,
    data: Seq<u8>,
    per_cell: int,
    width: int,
    j: int,
) -> u8 {
    let px = j % (8 * width);
    let py = j / (8 * width);
    let s = surfaces[(py / 8) * width + px / 8];
    if s.tile_up != -1 {
        data[tiles[s.tile_up as int].light * 4 * per_cell + px % 8 + (py % 8) * 8]
    } else {
        255
    }
}

/// Builds the shadow map of a `width` by `height` grid.
pub fn create_shadowmap_image(
    surfaces: &Vec<Surface>,
    tiles: &Vec<Tile>,
    lm: &LightmapData,
    width: u32,
    height: u32,
) -> (r: Vec<u8>)
    requires
        surfaces@.len() == width as int * height as int,
        surfaces@.len() * 64 <= usize::MAX,
        top_lights_in(surfaces@, tiles@, lm.count as int),
        lm.wf(),
        lm.count == 0 || lm.per_cell >= BLOCK_TEXELS,
    ensures
        r@.len() == surfaces@.len() * 64,
        forall|j: int|
            0 <= j < r@.len() ==> r@[j] == shadow_byte(
                surfaces@,
                tiles@,
                lm.data@,
                lm.per_cell as int,
                width as int,
                j,
            ),
{
    let n = surfaces.len();
    let len = n * 64;
    if n == 0 {
        return Vec::new();
    }
    assert(width as int <= n) by (nonlinear_arith)
        requires
            n == width as int * height as int,
            n > 0,
            height >= 0,
    ;
    let row = 8 * (width as usize);
    let dlen = lm.data.len();
    let per_cell = lm.per_cell as usize;
    let count = lm.count as usize;
    let mut out: Vec<u8> = Vec::with_capacity(len);
    let mut j: usize = 0;
    while j < len
        invariant
            j <= len,
            n == surfaces@.len(),
            n == width as int * height as int,
            len == n * 64,
            row == 8 * width,
            dlen == lm.data@.len(),
            per_cell == lm.per_cell,
            count == lm.count,
            top_lights_in(surfaces@, tiles@, lm.count as int),
            lm.wf(),
            lm.count == 0 || lm.per_cell >= BLOCK_TEXELS,
            out@.len() == j,
            forall|q: int|
                0 <= q < j ==> out@[q] == shadow_byte(
                    surfaces@,
                    tiles@,
                    lm.data@,
                    per_cell as int,
                    width as int,
                    q,
                ),
        decreases len - j,
    {
        proof {
            let wi = width as int;
            let hi = height as int;
            let ji = j as int;
            assert(ji < wi * hi * 64);
            assert(wi > 0) by (nonlinear_arith)
                requires
                    0 <= ji < wi * hi * 64,
                    wi >= 0,
                    hi >= 0,
            ;
            let px = ji % (8 * wi);
            let py = ji / (8 * wi);
            assert(0 <= (py / 8) * wi + px / 8 < wi * hi) by (nonlinear_arith)
                requires
                    wi > 0,
                    hi >= 0,
                    0 <= ji < wi * hi * 64,
                    px == ji % (8 * wi),
                    py == ji / (8 * wi),
            ;
        }
        let px = j % row;
        let py = j / row;
        let c = (py / 8) * (width as usize) + px / 8;
        let s = &surfaces[c];
        let v: u8 = if s.tile_up != -1 {
            let light = tiles[s.tile_up as usize].light as usize;
            proof {
                lemma_entry_fits(light as int, count as int, per_cell as int);
            }
            lm.data[light * 4 * per_cell + px % 8 + (py % 8) * 8]
        } else {
            255
        };
        out.push(v);
        j = j + 1;
    }
    out
}

} // verus!
