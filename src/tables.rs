use vstd::prelude::*;

use crate::error::GndError;
use crate::reader::{le_i32, le_u16, le_u32, read_bytes, read_i32, read_u16, read_u32, read_u8};

verus! {

/// Packed lightmap blocks: `count` entries of `4 * per_cell` bytes each, the first `per_cell`
/// bytes of an entry being its shadow layer and the next `3 * per_cell` its RGB layer.
#[derive(Debug)]
pub struct LightmapData {
    pub per_cell: u32,
    pub count: u32,
    pub data: Vec<u8>,
}

impl LightmapData {
    /// The buffer holds exactly `count` entries.
    pub open spec fn wf(&self) -> bool {
        self.data@.len() == self.count as int * self.per_cell as int * 4
    }
}

/// Bytes per lightmap entry layer, as the header at `pos` gives it.
pub open spec fn lightmap_per_cell(s: Seq<u8>, pos: int) -> int {
    le_u32(s, pos + 4) * le_u32(s, pos + 8) * le_u32(s, pos + 12)
}

/// Offset just past a lightmap table at `pos`.
pub open spec fn lightmap_table_end(s: Seq<u8>, pos: int) -> int {
    pos + 16 + le_u32(s, pos) * lightmap_per_cell(s, pos) * 4
}

/// The lightmap table at `pos` can be read: its header is there, its layer size fits in 32 bits
/// and its entries are all there.
pub open spec fn lightmap_table_ok(s: Seq<u8>, pos: int) -> bool {
    &&& pos + 16 <= s.len()
    &&& lightmap_per_cell(s, pos) <= u32::MAX
    &&& lightmap_table_end(s, pos) <= s.len()
}

/// Reads a lightmap table at `*pos`: `count`, texels per entry across and down, bytes per texel
/// (each a `u32`), then the entries. The bytes are kept as they are.
pub fn load_lightmaps(buf: &[u8], pos: &mut usize) -> (r: Result<LightmapData, GndError>)
    ensures
        r.is_ok() <==> lightmap_table_ok(buf@, *old(pos) as int),
        r.is_err() ==> r == Err::<LightmapData, GndError>(GndError::FormatError),
        r.is_ok() ==> {
            let lm = r.unwrap();
            let p = *old(pos) as int;
            &&& lm.wf()
            &&& lm.count as int == le_u32(buf@, p)
            &&& lm.per_cell as int == lightmap_per_cell(buf@, p)
            &&& lm.data@ == buf@.subrange(p + 16, lightmap_table_end(buf@, p))
            &&& *final(pos) == lightmap_table_end(buf@, p)
        },
{
    let start = *pos;
    let blen = buf.len();
    if start > blen || blen - start < 16 {
        return Err(GndError::FormatError);
    }
    let count = read_u32(buf, start).unwrap();
    let px = read_u32(buf, start + 4).unwrap();
    let py = read_u32(buf, start + 8).unwrap();
    let bpt = read_u32(buf, start + 12).unwrap();
    assert(px as int * py as int <= u32::MAX as int * u32::MAX as int) by (nonlinear_arith)
        requires
            px <= u32::MAX,
            py <= u32::MAX,
    ;
    let pxy = (px as u64) * (py as u64);
    let per_cell = match pxy.checked_mul(bpt as u64) {
        Some(v) => v,
        None => return Err(GndError::FormatError),
    };
    if per_cell > u32::MAX as u64 {
        return Err(GndError::FormatError);
    }
    let rest = (blen - (start + 16)) as u64;
    assert(count as int * per_cell as int <= u32::MAX as int * u32::MAX as int) by (nonlinear_arith)
        requires
            count <= u32::MAX,
            per_cell <= u32::MAX,
    ;
    let cells = (count as u64) * per_cell;
    if cells > rest / 4 {
        return Err(GndError::FormatError);
    }
    let n = (cells * 4) as usize;
    let data = read_bytes(buf, start + 16, n).unwrap();
    *pos = start + 16 + n;
    Ok(LightmapData { per_cell: per_cell as u32, count, data })
}

/// One tile: raw UV corners, the dense index of its texture, its lightmap entry and its color.
/// The UV corners are the bit patterns of the file's 32-bit floats, in tile space.
#[derive(Debug)]
pub struct Tile {
    pub u1: u32,
    pub u2: u32,
    pub u3: u32,
    pub u4: u32,
    pub v1: u32,
    pub v2: u32,
    pub v3: u32,
    pub v4: u32,
    pub texture: usize,
    pub light: u16,
    pub color: [u8; 4],
}

/// The tile record at offset `o` reads as `t`, its texture slot mapped through `indices`.
pub open spec fn is_tile_at(t: Tile, s: Seq<u8>, o: int, indices: Seq<usize>) -> bool {
    &&& t.u1 as int == le_u32(s, o)
    &&& t.u2 as int == le_u32(s, o + 4)
    &&& t.u3 as int == le_u32(s, o + 8)
    &&& t.u4 as int == le_u32(s, o + 12)
    &&& t.v1 as int == le_u32(s, o + 16)
    &&& t.v2 as int == le_u32(s, o + 20)
    &&& t.v3 as int == le_u32(s, o + 24)
    &&& t.v4 as int == le_u32(s, o + 28)
    &&& t.texture == indices[le_u16(s, o + 32)]
    &&& t.light as int == le_u16(s, o + 34)
    &&& t.color@ == s.subrange(o + 36, o + 40)
}

/// Texture slot named by the `i`-th tile record of the table at `pos`.
pub open spec fn tile_slot(s: Seq<u8>, pos: int, i: int) -> int {
    le_u16(s, pos + 4 + 40 * i + 32)
}

/// All tile records of the table at `pos` are in the input.
pub open spec fn tile_table_complete(s: Seq<u8>, pos: int) -> bool {
    pos + 4 <= s.len() && pos + 4 + 40 * le_u32(s, pos) <= s.len()
}

/// Every tile record of the table at `pos` names a texture slot that exists.
pub open spec fn tile_slots_valid(s: Seq<u8>, pos: int, slots: int) -> bool {
    forall|i: int| 0 <= i < le_u32(s, pos) ==> tile_slot(s, pos, i) < slots
}

/// Reads one tile record at `o`.
fn read_tile(buf: &[u8], o: usize, indices: &Vec<usize>) -> (t: Tile)
    requires
        o + 40 <= buf@.len(),
        le_u16(buf@, o + 32) < indices@.len(),
    ensures
        is_tile_at(t, buf@, o as int, indices@),
{
    let len = buf.len();
    assert(o + 40 <= len);
    let slot = read_u16(buf, o + 32).unwrap();
    let color = [
        read_u8(buf, o + 36).unwrap(),
        read_u8(buf, o + 37).unwrap(),
        read_u8(buf, o + 38).unwrap(),
        read_u8(buf, o + 39).unwrap(),
    ];
    assert(color@ =~= buf@.subrange(o + 36, o + 40));
    Tile {
        u1: read_u32(buf, o).unwrap(),
        u2: read_u32(buf, o + 4).unwrap(),
        u3: read_u32(buf, o + 8).unwrap(),
        u4: read_u32(buf, o + 12).unwrap(),
        v1: read_u32(buf, o + 16).unwrap(),
        v2: read_u32(buf, o + 20).unwrap(),
        v3: read_u32(buf, o + 24).unwrap(),
        v4: read_u32(buf, o + 28).unwrap(),
        texture: indices[slot as usize],
        light: read_u16(buf, o + 34).unwrap(),
        color,
    }
}

/// Reads a tile table at `*pos`: `count: u32`, then `count` records of eight UV floats, a `u16`
/// texture slot, a `u16` lightmap entry and four color bytes. A slot is mapped to its texture's
/// dense index through `indices`. Fails with a format error when the input ends before the table
/// does, and otherwise with an index error when a record names a slot that `indices` lacks.
pub fn load_tiles(buf: &[u8], pos: &mut usize, indices: &Vec<usize>) -> (r: Result<
    Vec<Tile>,
    GndError,
>)
    ensures
        !tile_table_complete(buf@, *old(pos) as int) <==> r == Err::<Vec<Tile>, GndError>(
            GndError::FormatError,
        ),
        tile_table_complete(buf@, *old(pos) as int) ==> (r.is_ok() <==> tile_slots_valid(
            buf@,
            *old(pos) as int,
            indices@.len() as int,
        )),
        r.is_err() ==> r == Err::<Vec<Tile>, GndError>(GndError::FormatError) || r == Err::<
            Vec<Tile>,
            GndError,
        >(GndError::IndexError),
        r.is_ok() ==> {
            let tiles = r.unwrap();
            let p = *old(pos) as int;
            &&& tiles@.len() == le_u32(buf@, p)
            &&& forall|i: int|
                0 <= i < tiles@.len() ==> is_tile_at(tiles@[i], buf@, p + 4 + 40 * i, indices@)
            &&& *final(pos) == p + 4 + 40 * le_u32(buf@, p)
        },
{
    let start = *pos;
    let blen = buf.len();
    let count = match read_u32(buf, start) {
        Some(c) => c,
        None => return Err(GndError::FormatError),
    };
    let rest = (blen - (start + 4)) as u64;
    if (count as u64) > rest / 40 {
        return Err(GndError::FormatError);
    }
    let first = start + 4;
    let mut tiles: Vec<Tile> = Vec::new();
    let mut i: u32 = 0;
    while i < count
        invariant
            i <= count,
            start == *old(pos),
            count as int == le_u32(buf@, start as int),
            first == start + 4,
            first + 40 * count <= blen,
            blen == buf@.len(),
            tiles@.len() == i,
            forall|k: int| 0 <= k < i ==> tile_slot(buf@, start as int, k) < indices@.len(),
            forall|k: int|
                0 <= k < i ==> is_tile_at(tiles@[k], buf@, first + 40 * k, indices@),
        decreases count - i,
    {
        let o = first + 40 * (i as usize);
        let slot = read_u16(buf, o + 32).unwrap();
        if slot as usize >= indices.len() {
            assert(tile_slot(buf@, start as int, i as int) == slot as int);
            assert(tile_table_complete(buf@, start as int));
            return Err(GndError::IndexError);
        }
        tiles.push(read_tile(buf, o, indices));
        i = i + 1;
    }
    *pos = first + 40 * (count as usize);
    Ok(tiles)
}

/// One grid cell: the bit patterns of its four corner heights in file units, and the tiles of its
/// top, front and right faces (-1 means that the face is absent; any other value indexes the
/// tile table).
#[derive(Debug)]
pub struct Surface {
    pub height: [u32; 4],
    pub tile_up: i32,
    pub tile_front: i32,
    pub tile_right: i32,
}

/// The surface record at offset `o` reads as `c`.
pub open spec fn is_surface_at(c: Surface, s: Seq<u8>, o: int) -> bool {
    &&& c.height@.len() == 4
    &&& forall|k: int| 0 <= k < 4 ==> c.height@[k] as int == le_u32(s, o + 4 * k)
    &&& c.tile_up as int == le_i32(s, o + 16)
    &&& c.tile_front as int == le_i32(s, o + 20)
    &&& c.tile_right as int == le_i32(s, o + 24)
}

/// Reads one surface record at `o`.
fn read_surface(buf: &[u8], o: usize) -> (c: Surface)
    requires
        o + 28 <= buf@.len(),
    ensures
        is_surface_at(c, buf@, o as int),
{
    let len = buf.len();
    assert(o + 28 <= len);
    let height = [
        read_u32(buf, o).unwrap(),
        read_u32(buf, o + 4).unwrap(),
        read_u32(buf, o + 8).unwrap(),
        read_u32(buf, o + 12).unwrap(),
    ];
    Surface {
        height,
        tile_up: read_i32(buf, o + 16).unwrap(),
        tile_front: read_i32(buf, o + 20).unwrap(),
        tile_right: read_i32(buf, o + 24).unwrap(),
    }
}

/// Reads the `cells` surface records of a grid at `*pos`, row by row with x varying fastest.
/// Fails with a format error when the input ends before the last record does.
pub fn load_surfaces(buf: &[u8], pos: &mut usize, cells: u64) -> (r: Result<
    Vec<Surface>,
    GndError,
>)
    ensures
        r.is_ok() <==> *old(pos) + 28 * cells <= buf@.len(),
        r.is_err() ==> r == Err::<Vec<Surface>, GndError>(GndError::FormatError),
        r.is_ok() ==> {
            let surfaces = r.unwrap();
            let p = *old(pos) as int;
            &&& surfaces@.len() == cells
            &&& forall|i: int|
                0 <= i < surfaces@.len() ==> is_surface_at(surfaces@[i], buf@, p + 28 * i)
            &&& *final(pos) == p + 28 * cells
        },
{
    let start = *pos;
    let blen = buf.len();
    if start > blen || cells > ((blen - start) as u64) / 28 {
        return Err(GndError::FormatError);
    }
    let n = cells as usize;
    let mut surfaces: Vec<Surface> = Vec::new();
    let mut i: usize = 0;
    while i < n
        invariant
            i <= n,
            n == cells,
            start + 28 * n <= blen,
            blen == buf@.len(),
            surfaces@.len() == i,
            forall|k: int| 0 <= k < i ==> is_surface_at(surfaces@[k], buf@, start + 28 * k),
        decreases n - i,
    {
        surfaces.push(read_surface(buf, start + 28 * i));
        i = i + 1;
    }
    *pos = start + 28 * n;
    Ok(surfaces)
}

} // verus!
