use gnd_map::atlas::{
    ceil_sqrt, cell_of, lightmap_atlas_geometry, lightmap_window, pow2_at_least, round_sqrt,
    texture_atlas_geometry, water_steps, AtlasGeometry, LightmapWindow,
};
use gnd_map::normals::{corner_offset, neighbor_cell};
use gnd_map::reader::{read_i32, read_u16, read_u32};
use gnd_map::skills::{
    ArmorModifierStatus, AssaBladeDashSkill, ElapsedTime, LightningSkill, Percentage,
    SkillTargetType, StatusUpdateResult,
};
use gnd_map::textures::{bytes_eq, dedup_names, trim_name};
use gnd_map::water::f32_greater;

#[test]
fn square_roots_round_and_ceil() {
    let cases = [(0, 0, 0), (1, 1, 1), (2, 1, 2), (3, 2, 2), (4, 2, 2), (5, 2, 3), (6, 2, 3), (7, 3, 3), (9, 3, 3), (12, 3, 4), (13, 4, 4)];
    for (t, r, c) in cases {
        assert_eq!(round_sqrt(t), r, "round {}", t);
        assert_eq!(ceil_sqrt(t), c, "ceil {}", t);
    }
    assert_eq!(round_sqrt(u32::MAX), 65536);
    assert_eq!(ceil_sqrt(u32::MAX), 65536);
}

#[test]
fn powers_of_two() {
    assert_eq!(pow2_at_least(0), 1);
    assert_eq!(pow2_at_least(1), 1);
    assert_eq!(pow2_at_least(258), 512);
    assert_eq!(pow2_at_least(516), 1024);
    assert_eq!(pow2_at_least(1024), 1024);
    assert_eq!(pow2_at_least(0x8000_0000), 0x8000_0000);
}

#[test]
fn single_texture_atlas() {
    let g = texture_atlas_geometry(1);
    assert_eq!(g, AtlasGeometry { cols: 1, rows: 1, width: 512, height: 512 });
    assert_eq!(cell_of(0, g.cols), (0, 0));
}

#[test]
fn texture_atlas_layouts() {
    assert_eq!(texture_atlas_geometry(2), AtlasGeometry { cols: 1, rows: 2, width: 512, height: 1024 });
    assert_eq!(texture_atlas_geometry(5), AtlasGeometry { cols: 2, rows: 3, width: 1024, height: 1024 });
    assert_eq!(lightmap_atlas_geometry(10), AtlasGeometry { cols: 3, rows: 4, width: 32, height: 32 });
    assert_eq!(cell_of(5, 2), (1, 2));
    assert_eq!(cell_of(5, 0), (0, 0));
}

#[test]
fn lightmap_windows() {
    let g = AtlasGeometry { cols: 2, rows: 2, width: 16, height: 16 };
    assert_eq!(lightmap_window(3, &g), LightmapWindow { u1: 9, u2: 15, v1: 9, v2: 15 });
    assert_eq!(lightmap_window(2, &g), LightmapWindow { u1: 1, u2: 7, v1: 9, v2: 15 });
    let empty = AtlasGeometry { cols: 0, rows: 0, width: 1, height: 1 };
    assert_eq!(lightmap_window(7, &empty), LightmapWindow { u1: 1, u2: 7, v1: 1, v2: 7 });
}

#[test]
fn water_texture_steps() {
    assert_eq!(water_steps(0), (0, 1));
    assert_eq!(water_steps(3), (3, 4));
    assert_eq!(water_steps(4), (4, 5));
    assert_eq!(water_steps(5), (0, 1));
    assert_eq!(water_steps(9), (4, 5));
}

#[test]
fn float_comparison_by_bits() {
    assert!(f32_greater(0.0f32.to_bits(), (-1.0f32).to_bits()));
    assert!(!f32_greater((-1.0f32).to_bits(), 0.0f32.to_bits()));
    assert!(!f32_greater(0.0f32.to_bits(), (-0.0f32).to_bits()));
    assert!(!f32_greater((-0.0f32).to_bits(), 0.0f32.to_bits()));
    assert!(f32_greater(2.5f32.to_bits(), 2.25f32.to_bits()));
    assert!(f32_greater((-2.25f32).to_bits(), (-2.5f32).to_bits()));
    assert!(f32_greater(f32::INFINITY.to_bits(), f32::MAX.to_bits()));
    assert!(!f32_greater(f32::NAN.to_bits(), 0.0f32.to_bits()));
    assert!(!f32_greater(1.0f32.to_bits(), f32::NAN.to_bits()));
}

#[test]
fn little_endian_reads() {
    let b = [0x01u8, 0x02, 0x03, 0xff];
    assert_eq!(read_u16(&b, 0), Some(0x0201));
    assert_eq!(read_u32(&b, 0), Some(0xff03_0201));
    assert_eq!(read_i32(&b, 0), Some(0xff03_0201u32 as i32));
    assert_eq!(read_i32(&[0xff, 0xff, 0xff, 0xff], 0), Some(-1));
    assert_eq!(read_u32(&b, 1), None);
    assert_eq!(read_u16(&b, 3), None);
}

#[test]
fn names_and_dedup() {
    assert_eq!(trim_name(b"abc\0junk".to_vec()), b"abc".to_vec());
    assert_eq!(trim_name(b"full".to_vec()), b"full".to_vec());
    assert_eq!(trim_name(b"\0x".to_vec()), Vec::<u8>::new());
    assert!(bytes_eq(&b"ab".to_vec(), &b"ab".to_vec()));
    assert!(!bytes_eq(&b"ab".to_vec(), &b"abc".to_vec()));
    let raw = vec![b"b".to_vec(), b"a".to_vec(), b"b".to_vec(), b"c".to_vec(), b"a".to_vec()];
    let t = dedup_names(&raw);
    assert_eq!(t.names, vec![b"b".to_vec(), b"a".to_vec(), b"c".to_vec()]);
    assert_eq!(t.indices, vec![0, 1, 0, 2, 1]);
    let empty = dedup_names(&Vec::new());
    assert!(empty.names.is_empty() && empty.indices.is_empty());
}

#[test]
fn armor_modifier_lasts_ten_seconds() {
    let now = ElapsedTime { millis: 1_500 };
    let s = ArmorModifierStatus::new(now, Percentage { value: 30 });
    assert_eq!(s.started, now);
    assert_eq!(s.until, ElapsedTime { millis: 11_500 });
    assert_eq!(s.modifier, Percentage { value: 30 });
    assert_eq!(s.update(ElapsedTime { millis: 11_499 }), StatusUpdateResult::KeepIt);
    assert_eq!(s.update(ElapsedTime { millis: 11_500 }), StatusUpdateResult::RemoveIt);
    let late = ArmorModifierStatus::new(ElapsedTime { millis: u64::MAX - 5 }, Percentage { value: -10 });
    assert_eq!(late.until.millis, u64::MAX);
}

#[test]
fn skill_target_types() {
    assert_eq!(AssaBladeDashSkill.get_skill_target_type(), SkillTargetType::Directional);
    assert_eq!(LightningSkill.get_skill_target_type(), SkillTargetType::Area);
}

#[test]
fn corner_neighbour_offsets() {
    assert_eq!([corner_offset(0, 0), corner_offset(0, 1), corner_offset(0, 2)], [(-1, 0), (-1, -1), (0, -1)]);
    assert_eq!([corner_offset(1, 0), corner_offset(1, 1), corner_offset(1, 2)], [(1, 0), (1, -1), (0, -1)]);
    assert_eq!([corner_offset(2, 0), corner_offset(2, 1), corner_offset(2, 2)], [(1, 0), (1, 1), (0, 1)]);
    assert_eq!([corner_offset(3, 0), corner_offset(3, 1), corner_offset(3, 2)], [(-1, 0), (-1, 1), (0, 1)]);
}

#[test]
fn neighbours_off_the_grid_are_absent() {
    assert_eq!(neighbor_cell(1, 1, -1, -1, 3, 2), Some(0));
    assert_eq!(neighbor_cell(1, 0, 1, 1, 3, 2), Some(5));
    assert_eq!(neighbor_cell(0, 0, -1, 0, 3, 2), None);
    assert_eq!(neighbor_cell(0, 0, 0, -1, 3, 2), None);
    // The last column has no right neighbour, even though the next row exists.
    assert_eq!(neighbor_cell(2, 0, 1, 0, 3, 2), None);
    assert_eq!(neighbor_cell(2, 1, 0, 1, 3, 2), None);
}
