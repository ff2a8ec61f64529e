use gnd_map::error::GndError;
use gnd_map::gnd::{load, Gnd};
use gnd_map::mesh::FaceKind;
use gnd_map::water::plan_water;

struct TileSpec {
    slot: u16,
    light: u16,
    color: [u8; 4],
}

struct CellSpec {
    heights: [f32; 4],
    up: i32,
    front: i32,
    right: i32,
}

fn cell(h: f32, up: i32, front: i32, right: i32) -> CellSpec {
    CellSpec { heights: [h, h, h, h], up, front, right }
}

fn push_u32(out: &mut Vec<u8>, v: u32) {
    out.extend_from_slice(&v.to_le_bytes());
}

/// Lightmap entries of 8 by 8 texels, one byte each; entry `i` has shadow bytes `i` and RGB bytes
/// `0x37`.
fn build(
    width: u32,
    height: u32,
    names: &[&str],
    name_len: u32,
    lightmaps: u32,
    tiles: &[TileSpec],
    cells: &[CellSpec],
) -> Vec<u8> {
    let mut out = Vec::new();
    out.extend_from_slice(b"GRGN");
    out.push(1);
    out.push(7);
    push_u32(&mut out, width);
    push_u32(&mut out, height);
    out.extend_from_slice(&10.0f32.to_le_bytes());
    push_u32(&mut out, names.len() as u32);
    push_u32(&mut out, name_len);
    for n in names {
        let mut field = n.as_bytes().to_vec();
        field.resize(name_len as usize, 0);
        out.extend_from_slice(&field);
    }
    push_u32(&mut out, lightmaps);
    push_u32(&mut out, 8);
    push_u32(&mut out, 8);
    push_u32(&mut out, 1);
    for i in 0..lightmaps {
        out.extend(std::iter::repeat(i as u8).take(64));
        out.extend(std::iter::repeat(0x37u8).take(192));
    }
    push_u32(&mut out, tiles.len() as u32);
    for t in tiles {
        for k in 0..8 {
            out.extend_from_slice(&((k as f32) / 8.0).to_le_bytes());
        }
        out.extend_from_slice(&t.slot.to_le_bytes());
        out.extend_from_slice(&t.light.to_le_bytes());
        out.extend_from_slice(&t.color);
    }
    for c in cells {
        for h in c.heights {
            out.extend_from_slice(&(h * 5.0).to_le_bytes());
        }
        out.extend_from_slice(&c.up.to_le_bytes());
        out.extend_from_slice(&c.front.to_le_bytes());
        out.extend_from_slice(&c.right.to_le_bytes());
    }
    out
}

fn one_tile() -> Vec<TileSpec> {
    vec![TileSpec { slot: 0, light: 0, color: [10, 20, 30, 40] }]
}

fn load_err(buf: &[u8]) -> GndError {
    match load(buf) {
        Ok(_) => panic!("the load succeeded"),
        Err(e) => e,
    }
}

fn load_ok(buf: &[u8]) -> Gnd {
    match load(buf) {
        Ok(g) => g,
        Err(e) => panic!("the load failed: {:?}", e),
    }
}

fn water_count(g: &Gnd, level: f32, wave: f32) -> usize {
    let heights: Vec<[u32; 4]> = g
        .surfaces
        .iter()
        .map(|s| s.height.map(|b| (f32::from_bits(b) / 5.0).to_bits()))
        .collect();
    plan_water(&heights, (level - wave).to_bits(), g.width).len()
}

#[test]
fn bad_magic_is_format_error() {
    assert_eq!(load_err(b"XXXX"), GndError::FormatError);
    let mut buf = build(1, 1, &["a"], 4, 1, &one_tile(), &[cell(0.0, 0, -1, -1)]);
    buf[0] = b'X';
    buf[1] = b'X';
    buf[2] = b'X';
    buf[3] = b'X';
    assert_eq!(load_err(&buf), GndError::FormatError);
}

#[test]
fn two_by_one_flat_grid() {
    let buf = build(
        2,
        1,
        &["ground.bmp"],
        40,
        1,
        &one_tile(),
        &[cell(0.0, 0, -1, -1), cell(0.0, 0, -1, -1)],
    );
    let g = load_ok(&buf);
    assert_eq!(g.faces.len(), 2);
    assert_eq!(g.faces.len() * 6, 12);
    assert!(g.faces.iter().all(|f| f.kind == FaceKind::Top));
    assert_eq!((g.faces[0].x, g.faces[0].y, g.faces[1].x, g.faces[1].y), (0, 0, 1, 0));
    assert_eq!(water_count(&g, 0.0, 1.0), 2);
}

#[test]
fn header_fields_are_read() {
    let buf = build(1, 1, &["a"], 4, 1, &one_tile(), &[cell(2.0, 0, -1, -1)]);
    let g = load_ok(&buf);
    assert_eq!((g.version_major, g.version_minor), (1, 7));
    assert_eq!((g.width, g.height), (1, 1));
    assert_eq!(f32::from_bits(g.zoom), 10.0);
    assert_eq!(f32::from_bits(g.surfaces[0].height[2]), 10.0);
    assert_eq!(g.tiles[0].color, [10, 20, 30, 40]);
    assert_eq!(f32::from_bits(g.tiles[0].u2), 0.125);
}

#[test]
fn texture_names_are_deduplicated_in_first_seen_order() {
    let tiles = vec![
        TileSpec { slot: 0, light: 0, color: [0; 4] },
        TileSpec { slot: 1, light: 0, color: [0; 4] },
        TileSpec { slot: 2, light: 0, color: [0; 4] },
        TileSpec { slot: 3, light: 0, color: [0; 4] },
    ];
    let buf = build(1, 1, &["zeta", "alpha", "zeta", "beta"], 16, 1, &tiles, &[cell(0.0, 0, -1, -1)]);
    let g = load_ok(&buf);
    assert_eq!(g.texture_names, vec![b"zeta".to_vec(), b"alpha".to_vec(), b"beta".to_vec()]);
    assert_eq!(g.texture_indices, vec![0, 1, 0, 2]);
    let textures: Vec<usize> = g.tiles.iter().map(|t| t.texture).collect();
    assert_eq!(textures, vec![0, 1, 0, 2]);
    for i in &g.texture_indices {
        assert!(*i < g.texture_names.len());
    }
    assert_eq!((g.texture_atlas.cols, g.texture_atlas.rows), (2, 2));
    assert_eq!((g.texture_atlas.width, g.texture_atlas.height), (1024, 1024));
}

#[test]
fn truncated_input_is_format_error() {
    let buf = build(2, 2, &["a"], 4, 1, &one_tile(), &[
        cell(0.0, 0, -1, -1),
        cell(0.0, 0, -1, -1),
        cell(0.0, 0, -1, -1),
        cell(0.0, 0, -1, -1),
    ]);
    assert!(load(&buf).is_ok());
    for cut in [10, 20, 30, 40, 50, 200, buf.len() - 100, buf.len() - 1] {
        assert_eq!(load_err(&buf[..cut]), GndError::FormatError, "cut at {}", cut);
    }
}

#[test]
fn tile_slot_out_of_range_is_index_error() {
    let tiles = vec![TileSpec { slot: 1, light: 0, color: [0; 4] }];
    let buf = build(1, 1, &["a"], 4, 1, &tiles, &[cell(0.0, 0, -1, -1)]);
    assert_eq!(load_err(&buf), GndError::IndexError);
}

#[test]
fn surface_tile_out_of_range_is_index_error() {
    let buf = build(1, 1, &["a"], 4, 1, &one_tile(), &[cell(0.0, 1, -1, -1)]);
    assert_eq!(load_err(&buf), GndError::IndexError);
}

#[test]
fn only_minus_one_means_no_face() {
    let buf = build(1, 1, &["a"], 4, 1, &one_tile(), &[cell(0.0, -2, -1, -1)]);
    assert_eq!(load_err(&buf), GndError::IndexError);
    let cells = [cell(0.0, -1, -1, -7), cell(0.0, -1, -1, -1)];
    let buf = build(2, 1, &["a"], 4, 1, &one_tile(), &cells);
    assert_eq!(load_err(&buf), GndError::IndexError);
    let cells = [cell(0.0, -1, -3, -1), cell(0.0, -1, -1, -1)];
    let buf = build(1, 2, &["a"], 4, 1, &one_tile(), &cells);
    assert_eq!(load_err(&buf), GndError::IndexError);
}

#[test]
fn wall_toward_missing_cell_is_not_checked() {
    let buf = build(1, 1, &["a"], 4, 1, &one_tile(), &[cell(0.0, 0, 9, -5)]);
    let g = load_ok(&buf);
    assert_eq!(g.faces.len(), 1);
}

#[test]
fn light_out_of_range_is_index_error() {
    let tiles = vec![TileSpec { slot: 0, light: 1, color: [0; 4] }];
    let buf = build(1, 1, &["a"], 4, 1, &tiles, &[cell(0.0, 0, -1, -1)]);
    assert_eq!(load_err(&buf), GndError::IndexError);
}

#[test]
fn zero_width_with_tiles_is_config_error() {
    let buf = build(0, 3, &["a"], 4, 1, &one_tile(), &[]);
    assert_eq!(load_err(&buf), GndError::ConfigError);
}

#[test]
fn empty_grid_without_tiles_loads() {
    let buf = build(0, 0, &[], 4, 0, &[], &[]);
    let g = load_ok(&buf);
    assert!(g.faces.is_empty());
    assert!(g.surfaces.is_empty());
    assert_eq!((g.lightmap_atlas.cols, g.lightmap_atlas.rows), (0, 0));
    assert_eq!(g.lightmap_image, vec![0, 0, 0, 0]);
}

#[test]
fn small_lightmap_cells_are_format_error() {
    let mut buf = build(1, 1, &["a"], 4, 1, &one_tile(), &[cell(0.0, 0, -1, -1)]);
    // Lightmap header starts after the 18-byte header and the texture table (8 + 4 bytes).
    let at = 18 + 8 + 4;
    buf[at + 4] = 4;
    assert_eq!(load_err(&buf), GndError::FormatError);
}

#[test]
fn front_and_right_walls_stop_at_the_grid_edge() {
    let tiles = one_tile();
    let cells = [
        cell(0.0, -1, 0, 0),
        cell(0.0, -1, 0, 0),
        cell(0.0, -1, 0, 0),
        cell(0.0, -1, 0, 0),
    ];
    let buf = build(2, 2, &["a"], 4, 1, &tiles, &cells);
    let g = load_ok(&buf);
    let got: Vec<(FaceKind, u32, u32, usize)> =
        g.faces.iter().map(|f| (f.kind, f.x, f.y, f.neighbor)).collect();
    assert_eq!(
        got,
        vec![
            (FaceKind::Front, 0, 0, 2),
            (FaceKind::Right, 0, 0, 1),
            (FaceKind::Front, 1, 0, 3),
            (FaceKind::Right, 0, 1, 3),
        ]
    );
}

#[test]
fn cells_without_top_have_no_color_and_full_shadow() {
    let tiles = vec![
        TileSpec { slot: 0, light: 0, color: [1, 2, 3, 4] },
        TileSpec { slot: 0, light: 1, color: [5, 6, 7, 8] },
    ];
    let cells = [cell(0.0, 1, -1, -1), cell(0.0, -1, -1, -1)];
    let buf = build(2, 1, &["a"], 4, 2, &tiles, &cells);
    let g = load_ok(&buf);
    assert_eq!(g.tiles_color_image, vec![5, 6, 7, 8, 0, 0, 0, 0]);
    assert_eq!(g.faces.len(), 1);
    assert_eq!(g.shadowmap_image.len(), 2 * 64);
    // Row 0 of the shadow map: cell 0 takes entry 1's shadow bytes, cell 1 is fully lit.
    assert_eq!(&g.shadowmap_image[0..8], &[1u8; 8]);
    assert_eq!(&g.shadowmap_image[8..16], &[255u8; 8]);
    assert_eq!(g.shadowmap_image[16 * 7 + 3], 1);
    assert_eq!(g.shadowmap_image[16 * 7 + 12], 255);
}

#[test]
fn lightmap_image_posterizes_rgb_and_keeps_shadow() {
    let tiles = one_tile();
    let buf = build(1, 1, &["a"], 4, 2, &tiles, &[cell(0.0, 0, -1, -1)]);
    let g = load_ok(&buf);
    // Two entries: one column, two rows; 8 by 16 texels rounded up to 8 by 16.
    assert_eq!(
        (g.lightmap_atlas.cols, g.lightmap_atlas.rows, g.lightmap_atlas.width, g.lightmap_atlas.height),
        (1, 2, 8, 16)
    );
    assert_eq!(g.lightmap_image.len(), 8 * 16 * 4);
    assert_eq!(&g.lightmap_image[0..4], &[0x30, 0x30, 0x30, 0]);
    let second = (8 * 8) * 4;
    assert_eq!(&g.lightmap_image[second..second + 4], &[0x30, 0x30, 0x30, 1]);
}

#[test]
fn loading_twice_gives_the_same_buffers() {
    let buf = build(2, 1, &["a", "b"], 4, 3, &one_tile(), &[cell(1.0, 0, -1, 0), cell(2.0, 0, -1, -1)]);
    let a = load_ok(&buf);
    let b = load_ok(&buf);
    assert_eq!(a.faces, b.faces);
    assert_eq!(a.lightmap_image, b.lightmap_image);
    assert_eq!(a.tiles_color_image, b.tiles_color_image);
    assert_eq!(a.shadowmap_image, b.shadowmap_image);
    assert_eq!(a.texture_names, b.texture_names);
}

#[test]
fn water_appears_as_a_corner_rises() {
    let low = build(1, 1, &["a"], 4, 1, &one_tile(), &[cell(-3.0, 0, -1, -1)]);
    let g = load_ok(&low);
    assert_eq!(water_count(&g, 0.0, 1.0), 0);
    let mut raised = [-3.0f32; 4];
    raised[2] = -0.5;
    let cells = [CellSpec { heights: raised, up: 0, front: -1, right: -1 }];
    let high = build(1, 1, &["a"], 4, 1, &one_tile(), &cells);
    let g = load_ok(&high);
    assert_eq!(water_count(&g, 0.0, 1.0), 1);
    let bare_low = build(1, 1, &["a"], 4, 1, &one_tile(), &[cell(-3.0, -1, -1, -1)]);
    let g = load_ok(&bare_low);
    assert_eq!(water_count(&g, 0.0, 1.0), 0);
    // A cell without a top tile gets water from its heights alone.
    let bare_high = build(1, 1, &["a"], 4, 1, &one_tile(), &[cell(5.0, -1, -1, -1)]);
    let g = load_ok(&bare_high);
    assert_eq!(water_count(&g, 0.0, 1.0), 1);
}
