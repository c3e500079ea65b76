use wgpu_mc_core::entity::cuboid_uv;

#[test]
fn a_cuboid_unfolds_into_minecrafts_box_layout() {
    // A player head: texture at (0, 0), 8 x 8 x 8.
    let uv = cuboid_uv([0, 0], [8, 8, 8]);
    assert_eq!(uv.up, ((24, 8), (16, 0)));
    assert_eq!(uv.down, ((16, 8), (8, 0)));
    assert_eq!(uv.west, ((8, 16), (0, 8)));
    assert_eq!(uv.north, ((16, 16), (8, 8)));
    assert_eq!(uv.east, ((24, 16), (16, 8)));
    assert_eq!(uv.south, ((32, 16), (24, 8)));
}

#[test]
fn the_faces_move_with_the_texture_origin_and_depth() {
    let uv = cuboid_uv([16, 32], [4, 12, 2]);
    assert_eq!(uv.west, ((20, 46), (16, 34)));
    assert_eq!(uv.south, ((32, 46), (28, 34)));
    assert_eq!(uv.up, ((28, 34), (24, 32)));
}
