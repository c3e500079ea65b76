use wgpu_mc_core::preprocessing::{
    add_implicit_uniforms, buffer_declaration, ends_with, fetch_expression, is_built_in,
    is_shim_half, read_texel, TexelKind, UniformSets,
};

/// What the rewritten `isamplerBuffer` fetch reads at texel `index`.
fn fetch_byte(buffer: &[u8], index: usize) -> i32 {
    read_texel(buffer, index, TexelKind::Int)
}

/// Minecraft's `CloudRenderer#encodeFace`: three bytes per face, one texel each.
fn encode_face(out: &mut Vec<u8>, cell_x: i32, cell_z: i32, direction: i32, flags: i32) {
    let mut dir_and_flags = direction | flags;
    dir_and_flags |= (cell_x & 1) << 7;
    dir_and_flags |= (cell_z & 1) << 6;
    out.push((cell_x >> 1) as u8);
    out.push((cell_z >> 1) as u8);
    out.push(dir_and_flags as u8);
}

#[test]
fn a_face_survives_the_byte_layout() {
    let mut buffer = Vec::new();
    encode_face(&mut buffer, 3, 0, 0, 0);
    encode_face(&mut buffer, 2, 2, 4, 16);
    encode_face(&mut buffer, -3, -4, 7, 16 | 32);
    assert_eq!(buffer.len(), 9);
    assert_eq!(buffer[..3], [0x01, 0x00, 0x80]);

    for face in 0..3usize {
        let cell_x = fetch_byte(&buffer, face * 3);
        let cell_z = fetch_byte(&buffer, face * 3 + 1);
        let dir_and_flags = fetch_byte(&buffer, face * 3 + 2);

        let decoded_x = (cell_x << 1) | ((dir_and_flags & 0x80) >> 7);
        let decoded_z = (cell_z << 1) | ((dir_and_flags & 0x40) >> 6);

        let expected = match face {
            0 => (3, 0, 0, false, false),
            1 => (2, 2, 4, true, false),
            _ => (-3, -4, 7, true, true),
        };

        assert_eq!(
            (decoded_x, decoded_z, dir_and_flags & 7, (dir_and_flags & 16) == 16, (dir_and_flags & 32) == 32),
            expected,
            "face {face} decoded to the wrong cell"
        );
    }
}

#[test]
fn the_word_index_is_not_the_texel_index() {
    let mut buffer = Vec::new();
    encode_face(&mut buffer, 3, 0, 0, 0);
    encode_face(&mut buffer, 200, 100, 4, 16);
    assert_eq!(buffer, [0x01, 0x00, 0x80, 100, 50, 0x14]);

    // The second face's first field is byte 3, which lives in the *first* word.
    assert_eq!(fetch_byte(&buffer, 3), 100);

    let misaligned = u32::from_le_bytes([buffer[4], buffer[5], 0, 0]);
    assert_ne!(misaligned & 0xFF, 100);

    let cell_x = fetch_byte(&buffer, 3);
    let dir_and_flags = fetch_byte(&buffer, 5);
    let decoded_x = (cell_x << 1) | ((dir_and_flags & 0x80) >> 7);
    assert_eq!(decoded_x, 200);
}

#[test]
fn an_unsigned_texel_is_not_sign_extended_and_a_read_past_the_end_is_zero() {
    let buffer = [0xFFu8, 0x80, 0x7F];
    assert_eq!(read_texel(&buffer, 0, TexelKind::Int), -1);
    assert_eq!(read_texel(&buffer, 0, TexelKind::Uint), 255);
    assert_eq!(read_texel(&buffer, 1, TexelKind::Int), -128);
    assert_eq!(read_texel(&buffer, 1, TexelKind::Float), 128);
    assert_eq!(read_texel(&buffer, 2, TexelKind::Int), 127);
    assert_eq!(read_texel(&buffer, 3, TexelKind::Int), 0);
    assert_eq!(read_texel(&buffer, 1000, TexelKind::Uint), 0);
    assert_eq!(TexelKind::default(), TexelKind::Int);
}

#[test]
fn the_rewritten_fetch_is_a_byte_extraction() {
    assert_eq!(
        fetch_expression("CloudFaces", "index", TexelKind::Int),
        "ivec4(((int((CloudFaces.inner[uint(index) >> 2u] >> ((uint(index) & 3u) << 3u)) & 0xFFu) ^ 0x80) - 0x80), 0, 0, 1)"
    );
    assert_eq!(
        fetch_expression("OtherFaces", "i + 1", TexelKind::Uint),
        "ivec4(int((OtherFaces.inner[uint(i + 1) >> 2u] >> ((uint(i + 1) & 3u) << 3u)) & 0xFFu), 0, 0, 1)"
    );
    assert_eq!(
        buffer_declaration("CloudFaces", 0, 4),
        "layout(std430, set = 0, binding = 4) readonly buffer CloudFacesBlock { uint[] inner; } CloudFaces;"
    );
}

#[test]
fn a_missing_binding_takes_the_next_free_one() {
    let mut sets = UniformSets {
        entries: vec![("Projection".to_string(), (0, 0)), ("Sampler0_wm_texshim".to_string(), (0, 3))],
    };
    assert_eq!(sets.binding_for(&"Projection".to_string()), (0, 0));
    assert_eq!(sets.entries.len(), 2);
    assert_eq!(sets.binding_for(&"Sampler0_wm_sampler".to_string()), (0, 4));
    assert_eq!(sets.binding_for(&"Sampler0_wm_sampler".to_string()), (0, 4));
    assert_eq!(sets.binding_for(&"Other".to_string()), (0, 5));

    let mut empty = UniformSets { entries: vec![] };
    assert_eq!(empty.binding_for(&"Anything".to_string()), (0, 0));
}

#[test]
fn implicit_blocks_are_bound_after_everything_the_pipeline_declared() {
    let mut sets = UniformSets {
        entries: vec![("Projection".to_string(), (0, 0)), ("ChunkSection".to_string(), (0, 1))],
    };
    let added = add_implicit_uniforms(
        &vec![
            "Projection".to_string(),
            "Globals".to_string(),
            "Fog".to_string(),
            "Globals".to_string(),
        ],
        &mut sets,
    );
    assert_eq!(added, vec![("Globals".to_string(), 2), ("Fog".to_string(), 3)]);
    assert_eq!(sets.entries.len(), 4);
    assert_eq!(sets.binding_for(&"Fog".to_string()), (0, 3));
}

#[test]
fn names_are_recognised_by_suffix_and_by_the_built_in_list() {
    assert!(is_shim_half("Sampler0_wm_texshim"));
    assert!(is_shim_half("Sampler0_wm_sampler"));
    assert!(!is_shim_half("Sampler0"));
    assert!(!is_shim_half("_wm_sample"));
    assert!(ends_with("abc", ""));
    assert!(!ends_with("c", "abc"));
    assert!(is_built_in("Globals"));
    assert!(is_built_in("Fog"));
    assert!(!is_built_in("ChunkSection"));
}
