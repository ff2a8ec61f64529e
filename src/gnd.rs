use vstd::prelude::*;

use crate::atlas::{
    is_atlas_of, lemma_atlas_unique, lightmap_atlas_geometry, texture_atlas_geometry, AtlasGeometry,
    LIGHTMAP_CELL, TEXTURE_CELL,
};
use crate::error::GndError;
use crate::images::{
    create_lightmap_image, create_shadowmap_image, create_tiles_color_image, lightmap_byte,
    shadow_byte, tile_color_byte, top_lights_in, BLOCK_TEXELS,
};
use crate::mesh::{
    col_of, faces_upto, grid_refs_ok, lemma_face_emission, lemma_faces_same_refs, plan_faces,
    plan_has, refs_ok, row_of, Face, FaceKind,
};
use crate::reader::{le_i32, le_u16, le_u32, read_u32, read_u8};
use crate::tables::{
    is_surface_at, is_tile_at, lightmap_per_cell, lightmap_table_end, lightmap_table_ok,
    load_lightmaps, load_surfaces, load_tiles, tile_slots_valid, tile_table_complete, LightmapData,
    Surface, Tile,
};
use crate::textures::{
    dedup, lemma_dedup, load_textures, raw_names, texture_table_end, TextureTable,
};

verus! {

/// Length of the fixed header: magic, version, width, height and zoom.
pub const HEADER_LEN: usize = 18;

/// The input starts with the magic bytes `GRGN`.
pub open spec fn magic_ok(s: Seq<u8>) -> bool {
    s.len() >= 4 && s[0] == 0x47 && s[1] == 0x52 && s[2] == 0x47 && s[3] == 0x4e
}

/// Grid width, in cells.
pub open spec fn grid_width(s: Seq<u8>) -> int {
    le_u32(s, 6)
}

/// Grid height, in cells.
pub open spec fn grid_height(s: Seq<u8>) -> int {
    le_u32(s, 10)
}

/// Offset of the lightmap table.
pub open spec fn lightmap_pos(s: Seq<u8>) -> int {
    texture_table_end(s, HEADER_LEN as int)
}

/// Number of lightmap entries.
pub open spec fn lightmap_count(s: Seq<u8>) -> int {
    le_u32(s, lightmap_pos(s))
}

/// Offset of the tile table.
pub open spec fn tile_pos(s: Seq<u8>) -> int {
    lightmap_table_end(s, lightmap_pos(s))
}

/// Number of tiles.
pub open spec fn tile_count(s: Seq<u8>) -> int {
    le_u32(s, tile_pos(s))
}

/// Offset of the surface table.
pub open spec fn surface_pos(s: Seq<u8>) -> int {
    tile_pos(s) + 4 + 40 * tile_count(s)
}

/// Tile reference `k` (0 top, 1 front, 2 right) of surface record `c`.
pub open spec fn surface_ref(s: Seq<u8>, c: int, k: int) -> int {
    le_i32(s, surface_pos(s) + 28 * c + (16 + 4 * k))
}

/// Every quad that the grid would emit names an existing tile.
pub open spec fn grid_refs_ok_in(s: Seq<u8>) -> bool {
    forall|c: int|
        0 <= c < grid_width(s) * grid_height(s) ==> refs_ok(
            surface_ref(s, c, 0),
            surface_ref(s, c, 1),
            surface_ref(s, c, 2),
            c,
            grid_width(s),
            grid_height(s),
            tile_count(s),
        )
}

/// Every top tile of the grid names an existing lightmap entry.
pub open spec fn top_lights_ok_in(s: Seq<u8>) -> bool {
    forall|c: int|
        0 <= c < grid_width(s) * grid_height(s) && surface_ref(s, c, 0) != -1 ==> le_u16(
            s,
            tile_pos(s) + 4 + 40 * surface_ref(s, c, 0) + 34,
        ) < lightmap_count(s)
}

/// The error that loading `s` fails with, checked in file order; none when `s` is a well-formed
/// ground map.
pub open spec fn load_error(s: Seq<u8>) -> Option<GndError> {
    let w = grid_width(s);
    let h = grid_height(s);
    if !(s.len() >= HEADER_LEN && magic_ok(s)) {
        Some(GndError::FormatError)
    } else if !(HEADER_LEN + 8 <= s.len() && lightmap_pos(s) <= s.len()) {
        Some(GndError::FormatError)
    } else if !lightmap_table_ok(s, lightmap_pos(s)) || (lightmap_count(s) > 0 && lightmap_per_cell(
        s,
        lightmap_pos(s),
    ) < BLOCK_TEXELS) {
        Some(GndError::FormatError)
    } else if !tile_table_complete(s, tile_pos(s)) {
        Some(GndError::FormatError)
    } else if !tile_slots_valid(s, tile_pos(s), le_u32(s, HEADER_LEN as int)) {
        Some(GndError::IndexError)
    } else if ((w == 0 || h == 0) && tile_count(s) > 0) || w * h * 64 > usize::MAX {
        Some(GndError::ConfigError)
    } else if surface_pos(s) + 28 * (w * h) > s.len() {
        Some(GndError::FormatError)
    } else if !grid_refs_ok_in(s) || !top_lights_ok_in(s) {
        Some(GndError::IndexError)
    } else if exists|g: AtlasGeometry|
        is_atlas_of(g, lightmap_count(s), LIGHTMAP_CELL as int) && g.width as int * g.height as int
            * 4 > usize::MAX {
        Some(GndError::ConfigError)
    } else {
        None
    }
}

/// A loaded ground map.
#[derive(Debug)]
pub struct Gnd {
    pub version_major: u8,
    pub version_minor: u8,
    /// Grid width, in cells.
    pub width: u32,
    /// Grid height, in cells.
    pub height: u32,
    /// Bit pattern of the 32-bit float world scale.
    pub zoom: u32,
    /// Distinct texture names, in first-seen order.
    pub texture_names: Vec<Vec<u8>>,
    /// For every texture slot of the file, the index of its name in `texture_names`.
    pub texture_indices: Vec<usize>,
    pub lightmaps: LightmapData,
    pub tiles: Vec<Tile>,
    /// One surface per cell, row by row.
    pub surfaces: Vec<Surface>,
    /// The ground quads, in emission order.
    pub faces: Vec<Face>,
    /// Layout of the atlas that packs the distinct textures.
    pub texture_atlas: AtlasGeometry,
    /// Layout of the lightmap atlas.
    pub lightmap_atlas: AtlasGeometry,
    pub lightmap_image: Vec<u8>,
    pub tiles_color_image: Vec<u8>,
    pub shadowmap_image: Vec<u8>,
}

impl Gnd {
    /// This map is what `s` holds.
    pub open spec fn is_loaded_from(&self, s: Seq<u8>) -> bool {
        let w = grid_width(s);
        let h = grid_height(s);
        let table = TextureTable { names: self.texture_names, indices: self.texture_indices };
        &&& self.version_major == s[4]
        &&& self.version_minor == s[5]
        &&& self.width as int == w
        &&& self.height as int == h
        &&& self.zoom as int == le_u32(s, 14)
        &&& table.is_table_of(
            raw_names(s, HEADER_LEN + 8, le_u32(s, HEADER_LEN + 4), le_u32(s, HEADER_LEN as int)),
        )
        &&& self.lightmaps.wf()
        &&& self.lightmaps.count as int == lightmap_count(s)
        &&& self.lightmaps.per_cell as int == lightmap_per_cell(s, lightmap_pos(s))
        &&& self.lightmaps.data@ == s.subrange(lightmap_pos(s) + 16, tile_pos(s))
        &&& self.tiles@.len() == tile_count(s)
        &&& forall|i: int|
            0 <= i < self.tiles@.len() ==> is_tile_at(
                self.tiles@[i],
                s,
                tile_pos(s) + 4 + 40 * i,
                self.texture_indices@,
            )
        &&& self.surfaces@.len() == w * h
        &&& forall|i: int|
            0 <= i < self.surfaces@.len() ==> is_surface_at(
                self.surfaces@[i],
                s,
                surface_pos(s) + 28 * i,
            )
        &&& grid_refs_ok(self.surfaces@, w, h, self.tiles@.len() as int)
        &&& top_lights_in(self.surfaces@, self.tiles@, lightmap_count(s))
        &&& self.faces@ == faces_upto(self.surfaces@, w, h, w * h)
        &&& is_atlas_of(self.texture_atlas, self.texture_names@.len() as int, TEXTURE_CELL as int)
        &&& is_atlas_of(self.lightmap_atlas, lightmap_count(s), LIGHTMAP_CELL as int)
        &&& self.lightmap_image@.len() == self.lightmap_atlas.width as int
            * self.lightmap_atlas.height as int * 4
        &&& forall|j: int|
            0 <= j < self.lightmap_image@.len() ==> self.lightmap_image@[j] == lightmap_byte(
                self.lightmaps.data@,
                self.lightmaps.per_cell as int,
                self.lightmaps.count as int,
                self.lightmap_atlas,
                j,
            )
        &&& self.tiles_color_image@.len() == w * h * 4
        &&& forall|j: int|
            0 <= j < self.tiles_color_image@.len() ==> self.tiles_color_image@[j]
                == tile_color_byte(self.surfaces@, self.tiles@, j)
        &&& self.shadowmap_image@.len() == w * h * 64
        &&& forall|j: int|
            0 <= j < self.shadowmap_image@.len() ==> self.shadowmap_image@[j] == shadow_byte(
                self.surfaces@,
                self.tiles@,
                self.lightmaps.data@,
                self.lightmaps.per_cell as int,
                w,
                j,
            )
    }
}

/// Whether every top tile of the grid names an existing lightmap entry.
fn top_lights_valid(surfaces: &Vec<Surface>, tiles: &Vec<Tile>, count: u32) -> (r: bool)
    requires
        forall|c: int|
            0 <= c < surfaces@.len() && surfaces@[c].tile_up != -1 ==> 0 <= surfaces@[c].tile_up
                < tiles@.len(),
    ensures
        r == top_lights_in(surfaces@, tiles@, count as int),
{
    let mut c: usize = 0;
    while c < surfaces.len()
        invariant
            c <= surfaces@.len(),
            forall|k: int|
                0 <= k < surfaces@.len() && surfaces@[k].tile_up != -1 ==> 0 <= surfaces@[k].tile_up
                    < tiles@.len(),
            forall|k: int|
                0 <= k < c && surfaces@[k].tile_up != -1 ==> tiles@[surfaces@[k].tile_up as int].light
                    < count,
        decreases surfaces@.len() - c,
    {
        let up = surfaces[c].tile_up;
        if up != -1 && tiles[up as usize].light as u32 >= count {
            return false;
        }
        c = c + 1;
    }
    true
}

/// Loads a ground map: header (`GRGN`, major and minor version bytes, width, height, zoom),
/// texture table, lightmap table, tile table and surface table, all little-endian; then plans the
/// ground quads and builds the lightmap atlas, tile color and shadow images. Any fault abandons
/// the whole load with the error that `load_error` names.
#[verifier::rlimit(50)]
pub fn load(buf: &[u8]) -> (r: Result<Gnd, GndError>)
    ensures
        r.is_ok() <==> load_error(buf@).is_none(),
        r.is_err() ==> r == Err::<Gnd, GndError>(load_error(buf@).unwrap()),
        r.is_ok() ==> r.unwrap().is_loaded_from(buf@),
{
    let ghost s = buf@;
    let blen = buf.len();
    if blen < HEADER_LEN || buf[0] != 0x47 || buf[1] != 0x52 || buf[2] != 0x47 || buf[3] != 0x4e {
        return Err(GndError::FormatError);
    }
    let version_major = read_u8(buf, 4).unwrap();
    let version_minor = read_u8(buf, 5).unwrap();
    let width = read_u32(buf, 6).unwrap();
    let height = read_u32(buf, 10).unwrap();
    let zoom = read_u32(buf, 14).unwrap();
    let mut pos: usize = HEADER_LEN;
    let table = match load_textures(buf, &mut pos) {
        Ok(t) => t,
        Err(e) => return Err(e),
    };
    assert(pos == lightmap_pos(s));
    let lightmaps = match load_lightmaps(buf, &mut pos) {
        Ok(l) => l,
        Err(e) => return Err(e),
    };
    if lightmaps.count > 0 && lightmaps.per_cell < BLOCK_TEXELS {
        return Err(GndError::FormatError);
    }
    assert(pos == tile_pos(s));
    let tiles = match load_tiles(buf, &mut pos, &table.indices) {
        Ok(t) => t,
        Err(e) => return Err(e),
    };
    assert(pos == surface_pos(s));
    assert(table.indices@.len() == le_u32(s, HEADER_LEN as int));
    if (width == 0 || height == 0) && tiles.len() > 0 {
        return Err(GndError::ConfigError);
    }
    let cells = match (width as usize).checked_mul(height as usize) {
        Some(n) => n,
        None => {
            assert(width as int * height as int * 64 > usize::MAX) by (nonlinear_arith)
                requires
                    width as int * height as int > usize::MAX,
            ;
            return Err(GndError::ConfigError);
        },
    };
    if cells.checked_mul(64).is_none() {
        return Err(GndError::ConfigError);
    }
    let surfaces = match load_surfaces(buf, &mut pos, cells as u64) {
        Ok(v) => v,
        Err(e) => return Err(e),
    };
    let ghost w = width as int;
    let ghost h = height as int;
    assert forall|c: int| 0 <= c < w * h implies {
        &&& surfaces@[c].tile_up as int == surface_ref(s, c, 0)
        &&& surfaces@[c].tile_front as int == surface_ref(s, c, 1)
        &&& surfaces@[c].tile_right as int == surface_ref(s, c, 2)
    } by {
        assert(is_surface_at(surfaces@[c], s, surface_pos(s) + 28 * c));
    }
    let faces = match plan_faces(&surfaces, width, height, tiles.len()) {
        Ok(f) => f,
        Err(e) => {
            assert(!grid_refs_ok_in(s)) by {
                let c = choose|c: int|
                    0 <= c < w * h && !crate::mesh::cell_refs_ok(surfaces@, w, h, c, tiles@.len() as int);
                assert(!refs_ok(
                    surface_ref(s, c, 0),
                    surface_ref(s, c, 1),
                    surface_ref(s, c, 2),
                    c,
                    w,
                    h,
                    tile_count(s),
                ));
            }
            return Err(e);
        },
    };
    assert forall|c: int| 0 <= c < w * h implies refs_ok(
        surface_ref(s, c, 0),
        surface_ref(s, c, 1),
        surface_ref(s, c, 2),
        c,
        w,
        h,
        tile_count(s),
    ) by {
        assert(crate::mesh::cell_refs_ok(surfaces@, w, h, c, tiles@.len() as int));
    }
    assert forall|c: int| 0 <= c < surfaces@.len() && surfaces@[c].tile_up != -1 implies 0
        <= surfaces@[c].tile_up < tiles@.len() by {
        assert(crate::mesh::cell_refs_ok(surfaces@, w, h, c, tiles@.len() as int));
    }
    assert forall|c: int| 0 <= c < w * h && surface_ref(s, c, 0) != -1 implies tiles@[surface_ref(
        s,
        c,
        0,
    )].light as int == le_u16(s, tile_pos(s) + 4 + 40 * surface_ref(s, c, 0) + 34) by {
        let up = surface_ref(s, c, 0);
        assert(crate::mesh::cell_refs_ok(surfaces@, w, h, c, tiles@.len() as int));
        assert(is_tile_at(tiles@[up], s, tile_pos(s) + 4 + 40 * up, table.indices@));
    }
    if !top_lights_valid(&surfaces, &tiles, lightmaps.count) {
        assert(!top_lights_ok_in(s)) by {
            let c = choose|c: int|
                0 <= c < surfaces@.len() && surfaces@[c].tile_up != -1 && !(
                tiles@[surfaces@[c].tile_up as int].light < lightmaps.count);
            assert(!(le_u16(s, tile_pos(s) + 4 + 40 * surface_ref(s, c, 0) + 34) < lightmap_count(
                s,
            )));
        }
        return Err(GndError::IndexError);
    }
    assert(top_lights_ok_in(s));
    let lightmap_atlas = lightmap_atlas_geometry(lightmaps.count);
    let lightmap_image = match create_lightmap_image(&lightmaps, &lightmap_atlas) {
        Some(img) => img,
        None => return Err(GndError::ConfigError),
    };
    assert forall|g: AtlasGeometry|
        is_atlas_of(g, lightmap_count(s), LIGHTMAP_CELL as int) implies !(g.width as int
        * g.height as int * 4 > usize::MAX) by {
        lemma_atlas_unique(g, lightmap_atlas, lightmap_count(s), LIGHTMAP_CELL as int);
    }
    proof {
        lemma_dedup(
            raw_names(s, HEADER_LEN + 8, le_u32(s, HEADER_LEN + 4), le_u32(s, HEADER_LEN as int)),
        );
    }
    assert(table.names@.len() <= u32::MAX) by {
        assert(table.names@.len() == dedup(
            raw_names(s, HEADER_LEN + 8, le_u32(s, HEADER_LEN + 4), le_u32(s, HEADER_LEN as int)),
        ).len());
    }
    let texture_atlas = texture_atlas_geometry(table.names.len() as u32);
    let tiles_color_image = create_tiles_color_image(&surfaces, &tiles);
    let shadowmap_image = create_shadowmap_image(&surfaces, &tiles, &lightmaps, width, height);
    let TextureTable { names, indices } = table;
    Ok(
        Gnd {
            version_major,
            version_minor,
            width,
            height,
            zoom,
            texture_names: names,
            texture_indices: indices,
            lightmaps,
            tiles,
            surfaces,
            faces,
            texture_atlas,
            lightmap_atlas,
            lightmap_image,
            tiles_color_image,
            shadowmap_image,
        },
    )
}

/// A cell without a top tile gets no top quad, and its texel of the tile color image is zero.
pub proof fn lemma_absent_top(g: Gnd, s: Seq<u8>, c: int)
    requires
        g.is_loaded_from(s),
        0 <= c < g.surfaces@.len(),
        g.surfaces@[c].tile_up == -1,
    ensures
        !plan_has(g.faces@, FaceKind::Top, col_of(c, g.width as int), row_of(c, g.width as int)),
        forall|j: int| 4 * c <= j < 4 * c + 4 ==> g.tiles_color_image@[j] == 0,
{
    lemma_face_emission(g.surfaces@, g.width, g.height, c);
    assert forall|j: int| 4 * c <= j < 4 * c + 4 implies g.tiles_color_image@[j] == 0 by {
        assert(j / 4 == c);
        assert(j < g.tiles_color_image@.len());
    }
}

/// Loading is a function of the input bytes: two maps loaded from the same bytes have the same
/// texture table, quads and images.
pub proof fn lemma_load_deterministic(s: Seq<u8>, g1: Gnd, g2: Gnd)
    requires
        g1.is_loaded_from(s),
        g2.is_loaded_from(s),
    ensures
        crate::textures::names_view(g1.texture_names@) == crate::textures::names_view(
            g2.texture_names@,
        ),
        g1.texture_indices@ == g2.texture_indices@,
        g1.faces@ == g2.faces@,
        g1.texture_atlas == g2.texture_atlas,
        g1.lightmap_atlas == g2.lightmap_atlas,
        g1.lightmap_image@ == g2.lightmap_image@,
        g1.tiles_color_image@ == g2.tiles_color_image@,
        g1.shadowmap_image@ == g2.shadowmap_image@,
{
    let w = grid_width(s);
    let h = grid_height(s);
    let raw = raw_names(s, HEADER_LEN + 8, le_u32(s, HEADER_LEN + 4), le_u32(s, HEADER_LEN as int));
    let t1 = TextureTable { names: g1.texture_names, indices: g1.texture_indices };
    let t2 = TextureTable { names: g2.texture_names, indices: g2.texture_indices };
    assert(t1.is_table_of(raw) && t2.is_table_of(raw));
    lemma_dedup(raw);
    let d = dedup(raw);
    assert forall|i: int| 0 <= i < raw.len() implies g1.texture_indices@[i]
        == g2.texture_indices@[i] by {
        let a = g1.texture_indices@[i] as int;
        let b = g2.texture_indices@[i] as int;
        assert(crate::textures::names_view(g1.texture_names@)[a] == raw[i]);
        assert(crate::textures::names_view(g2.texture_names@)[b] == raw[i]);
    }
    assert(g1.texture_indices@ =~= g2.texture_indices@);
    assert forall|c: int| 0 <= c < w * h implies g1.surfaces@[c].tile_up == g2.surfaces@[c].tile_up
        && g1.surfaces@[c].tile_front == g2.surfaces@[c].tile_front && g1.surfaces@[c].tile_right
        == g2.surfaces@[c].tile_right by {
        assert(is_surface_at(g1.surfaces@[c], s, surface_pos(s) + 28 * c));
        assert(is_surface_at(g2.surfaces@[c], s, surface_pos(s) + 28 * c));
    }
    lemma_faces_same_refs(g1.surfaces@, g2.surfaces@, w, h, w * h);
    lemma_atlas_unique(g1.texture_atlas, g2.texture_atlas, d.len() as int, TEXTURE_CELL as int);
    lemma_atlas_unique(g1.lightmap_atlas, g2.lightmap_atlas, lightmap_count(s), LIGHTMAP_CELL as int);
    assert(g1.lightmap_image@ =~= g2.lightmap_image@);
    assert forall|c: int| 0 <= c < w * h && g1.surfaces@[c].tile_up != -1 implies {
        let up = g1.surfaces@[c].tile_up as int;
        &&& g1.tiles@[up].color@ == g2.tiles@[up].color@
        &&& g1.tiles@[up].light == g2.tiles@[up].light
    } by {
        let up = g1.surfaces@[c].tile_up as int;
        assert(crate::mesh::cell_refs_ok(g1.surfaces@, w, h, c, g1.tiles@.len() as int));
        assert(is_tile_at(g1.tiles@[up], s, tile_pos(s) + 4 + 40 * up, g1.texture_indices@));
        assert(is_tile_at(g2.tiles@[up], s, tile_pos(s) + 4 + 40 * up, g2.texture_indices@));
    }
    assert forall|j: int| 0 <= j < g1.tiles_color_image@.len() implies g1.tiles_color_image@[j]
        == g2.tiles_color_image@[j] by {
        assert(0 <= j / 4 < w * h);
    }
    assert(g1.tiles_color_image@ =~= g2.tiles_color_image@);
    assert forall|j: int| 0 <= j < g1.shadowmap_image@.len() implies g1.shadowmap_image@[j]
        == g2.shadowmap_image@[j] by {
        let px = j % (8 * w);
        let py = j / (8 * w);
        assert(0 <= (py / 8) * w + px / 8 < w * h) by (nonlinear_arith)
            requires
                0 <= j < w * h * 64,
                w >= 0,
                h >= 0,
                px == j % (8 * w),
                py == j / (8 * w),
        ;
    }
    assert(g1.shadowmap_image@ =~= g2.shadowmap_image@);
}

/// With a single texture the atlas is one cell of a 512 by 512 texture, and that texture sits in
/// it at column 0, row 0.
pub proof fn lemma_single_texture_atlas(g: AtlasGeometry)
    requires
        is_atlas_of(g, 1, TEXTURE_CELL as int),
    ensures
        g.cols == 1,
        g.rows == 1,
        g.width == 512,
        g.height == 512,
        crate::atlas::grid_cell(0, g.cols as int) == (0int, 0int),
{
    assert(g.cols == 1) by (nonlinear_arith)
        requires
            crate::atlas::is_round_sqrt(g.cols as int, 1),
    ;
    assert(g.rows == 1) by (nonlinear_arith)
        requires
            crate::atlas::is_ceil_sqrt(g.rows as int, 1),
    ;
    reveal_with_fuel(crate::atlas::is_pow2, 10);
    assert(crate::atlas::is_pow2(512));
    if g.width < 512 {
        crate::atlas::lemma_pow2_gap(g.width as int, 512);
    } else if g.width > 512 {
        crate::atlas::lemma_pow2_gap(512, g.width as int);
    }
    if g.height < 512 {
        crate::atlas::lemma_pow2_gap(g.height as int, 512);
    } else if g.height > 512 {
        crate::atlas::lemma_pow2_gap(512, g.height as int);
    }
}

} // verus!
