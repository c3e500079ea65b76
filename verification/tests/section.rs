use std::sync::Arc;

use wgpu_mc_core::section::{Received, ChunkBlockState};
use wgpu_mc_core::section::{
    neighbour_offset, BlockstateKey, CachedBlockstateProvider, IVec3, Payload, SectionLight,
    WorldSections, BLOCK_RECORD_WORDS, HEADER_WORDS, LIGHT_BYTES, LIGHT_RECORD_WORDS,
    PAYLOAD_MAGIC, SECTIONS,
};

/// One section's worth of what the JVM writes, so the reader is tested against a writer rather
/// than against itself.
struct BlockFixture<'a> {
    index: usize,
    bits: u32,
    values_per_long: u32,
    mask: i64,
    longs: &'a [i64],
    palette: &'a [u32],
}

fn payload(blocks: &[BlockFixture<'_>], light: &[(usize, Vec<u8>, Vec<u8>)]) -> Vec<u8> {
    let records_at = HEADER_WORDS;
    let light_at = records_at + SECTIONS * BLOCK_RECORD_WORDS;
    let mut blob = (light_at + SECTIONS * LIGHT_RECORD_WORDS) * 4;

    let mut bytes = vec![0u8; blob];
    let put = |bytes: &mut Vec<u8>, at: usize, value: u32| {
        bytes[at * 4..at * 4 + 4].copy_from_slice(&value.to_le_bytes());
    };

    put(&mut bytes, 0, PAYLOAD_MAGIC);
    put(&mut bytes, 2, blocks.len() as u32);
    put(&mut bytes, 3, light.len() as u32);

    for (i, block) in blocks.iter().enumerate() {
        let at = records_at + i * BLOCK_RECORD_WORDS;
        let palette_offset = blob;
        let longs_offset = (blob + block.palette.len() * 4 + 7) / 8 * 8;

        bytes.resize(longs_offset + block.longs.len() * 8, 0);

        for (j, value) in block.palette.iter().enumerate() {
            bytes[palette_offset + j * 4..palette_offset + j * 4 + 4]
                .copy_from_slice(&value.to_le_bytes());
        }
        for (j, value) in block.longs.iter().enumerate() {
            bytes[longs_offset + j * 8..longs_offset + j * 8 + 8]
                .copy_from_slice(&value.to_le_bytes());
        }

        put(&mut bytes, at, block.index as u32);
        put(&mut bytes, at + 1, 1);
        put(&mut bytes, at + 2, block.bits);
        put(&mut bytes, at + 3, 4096);
        put(&mut bytes, at + 4, block.values_per_long);
        put(&mut bytes, at + 5, block.mask as u32);
        put(&mut bytes, at + 6, (block.mask as u64 >> 32) as u32);
        put(&mut bytes, at + 10, block.palette.len() as u32);
        put(&mut bytes, at + 11, palette_offset as u32);
        put(&mut bytes, at + 12, block.longs.len() as u32);
        put(&mut bytes, at + 13, longs_offset as u32);

        blob = longs_offset + block.longs.len() * 8;
    }

    for (i, (index, block, sky)) in light.iter().enumerate() {
        let at = light_at + i * LIGHT_RECORD_WORDS;

        bytes.resize(blob + LIGHT_BYTES * 2, 0);
        bytes[blob..blob + LIGHT_BYTES].copy_from_slice(block);
        bytes[blob + LIGHT_BYTES..blob + LIGHT_BYTES * 2].copy_from_slice(sky);

        put(&mut bytes, at, *index as u32);
        put(&mut bytes, at + 1, blob as u32);
        put(&mut bytes, at + 2, (blob + LIGHT_BYTES) as u32);

        blob += LIGHT_BYTES * 2;
    }

    bytes
}

/// Sixteen four-bit values in one long, with the divide constants zeroed.
fn nibbles<'a>(longs: &'a [i64], palette: &'a [u32]) -> BlockFixture<'a> {
    BlockFixture {
        index: 13,
        bits: 4,
        values_per_long: 16,
        mask: 0xf,
        longs,
        palette,
    }
}

fn plus(a: IVec3, b: IVec3) -> IVec3 {
    IVec3::new(a.x + b.x, a.y + b.y, a.z + b.z)
}

#[test]
fn a_payload_round_trips_its_block_data() {
    let key = (7u32 << 16) | 3;
    let longs = [0x10i64];
    let palette = [0u32, key];

    let bytes = payload(&[nibbles(&longs, &palette)], &[]);
    let parsed = Payload::parse(&bytes).expect("a payload this build writes");

    assert_eq!(parsed.present, 1 << 13);

    let section = parsed.blocks[13].as_ref().expect("the section it carried");
    assert_eq!(section.key(0, 0, 0), Some(BlockstateKey::from(0u32)));
    assert_eq!(section.key(1, 0, 0), Some(BlockstateKey::from(key)));
    assert_eq!(
        section.key(2, 0, 0),
        Some(BlockstateKey::from(0u32)),
        "a long that was never written decodes to the palette's first entry"
    );
}

#[test]
fn a_palette_index_with_no_entry_is_air_rather_than_a_panic() {
    let longs = [0x50i64];
    let palette = [0u32, 1];

    let bytes = payload(&[nibbles(&longs, &palette)], &[]);
    let parsed = Payload::parse(&bytes).expect("a payload this build writes");
    let section = parsed.blocks[13].as_ref().expect("the section it carried");

    assert_eq!(section.key(1, 0, 0), None);
}

#[test]
fn a_payload_round_trips_its_light() {
    let mut block = vec![0u8; LIGHT_BYTES];
    let mut sky = vec![0u8; LIGHT_BYTES];

    block[0] = 0xf7;
    sky[0] = 0x0f;

    let bytes = payload(&[], &[(13, block, sky)]);
    let parsed = Payload::parse(&bytes).expect("a payload this build writes");

    assert_eq!(parsed.light.len(), 1);
    assert_eq!(parsed.light[0].0, 13);
    assert_eq!(parsed.light[0].1.block[0], 0xf7);
    assert_eq!(parsed.light[0].1.sky[0], 0x0f);
}

#[test]
fn light_survives_a_payload_that_carries_fewer_than_a_full_neighbourhood() {
    let longs = [0i64];
    let palette = [0u32, 1];

    let mut block = vec![0u8; LIGHT_BYTES];
    let sky = vec![0u8; LIGHT_BYTES];
    block[0] = 0x3f;

    let bytes = payload(&[nibbles(&longs, &palette)], &[(0, block, sky)]);
    let parsed = Payload::parse(&bytes).expect("a payload this build writes");

    assert_eq!(parsed.present, 1 << 13, "the fixture's block record is index 13");
    assert_eq!(parsed.light.len(), 1);
    assert_eq!(parsed.light[0].0, 0);
    assert_eq!(parsed.light[0].1.block[0], 0x3f);
}

#[test]
fn a_payload_from_another_build_is_refused() {
    let mut bytes = payload(&[], &[]);
    bytes[0] = 0x00;

    assert!(Payload::parse(&bytes).is_none());
}

#[test]
fn a_payload_that_runs_off_its_own_end_is_refused() {
    let longs = [0i64];
    let palette = [0u32, 1];

    let mut bytes = payload(&[nibbles(&longs, &palette)], &[]);
    bytes.truncate(bytes.len() - 4);

    assert!(
        Payload::parse(&bytes).is_none(),
        "a record whose blob is not in the buffer is dropped, not read past the end"
    );
}

#[test]
fn light_that_was_sent_verifies_and_light_that_was_dropped_does_not() {
    let mut world = WorldSections::default();
    let target = IVec3::new(0, 0, 0);

    assert_eq!(
        world.missing(target, 1 << 13, 1 << 13),
        (1 << 13, 1 << 13),
        "nothing is cached yet"
    );
    assert_eq!(world.missing(target, 0, 0), (0, 0), "an empty mask asks for nothing");

    world.set_light(
        plus(target, neighbour_offset(13)),
        Arc::new(SectionLight {
            block: vec![0; LIGHT_BYTES],
            sky: vec![0; LIGHT_BYTES],
        }),
    );

    assert_eq!(world.missing(target, 0, 1 << 13), (0, 0));
    assert_eq!(world.missing(target, 1 << 13, 0), (1 << 13, 0));

    world.remove_light(plus(target, neighbour_offset(13)));
    assert_eq!(
        world.missing(target, 0, 1 << 13),
        (0, 1 << 13),
        "a section this side no longer has has to be re-sent"
    );
}

#[test]
fn the_neighbour_order_is_x_fastest_then_y_then_z() {
    assert_eq!(neighbour_offset(0), IVec3::new(-1, -1, -1));
    assert_eq!(neighbour_offset(1), IVec3::new(0, -1, -1));
    assert_eq!(neighbour_offset(3), IVec3::new(-1, 0, -1));
    assert_eq!(neighbour_offset(9), IVec3::new(-1, -1, 0));
    assert_eq!(neighbour_offset(13), IVec3::new(0, 0, 0));
    assert_eq!(neighbour_offset(26), IVec3::new(1, 1, 1));
}

#[test]
fn a_section_slot_is_found_from_a_position_one_block_outside_it() {
    assert_eq!(CachedBlockstateProvider::slot(IVec3::new(0, 0, 0)), 13);
    assert_eq!(CachedBlockstateProvider::slot(IVec3::new(-1, 0, 0)), 12);
    assert_eq!(CachedBlockstateProvider::slot(IVec3::new(16, 0, 0)), 14);
    assert_eq!(CachedBlockstateProvider::slot(IVec3::new(0, -1, 0)), 10);
    assert_eq!(CachedBlockstateProvider::slot(IVec3::new(0, 16, 0)), 16);
    assert_eq!(CachedBlockstateProvider::slot(IVec3::new(0, 0, -1)), 4);
    assert_eq!(CachedBlockstateProvider::slot(IVec3::new(0, 0, 16)), 22);
}

fn set_word(bytes: &mut [u8], at: usize, value: u32) {
    bytes[at * 4..at * 4 + 4].copy_from_slice(&value.to_le_bytes());
}

#[test]
fn a_received_section_is_what_the_bake_reads() {
    let key = (7u32 << 16) | 3;
    let longs = [0x10i64];
    let palette = [0u32, key];
    let mut block = vec![0u8; LIGHT_BYTES];
    block[0] = 0x09;
    let sky = vec![0xffu8; LIGHT_BYTES];

    let bytes = payload(&[nibbles(&longs, &palette)], &[(13, block, sky)]);
    let parsed = Payload::parse(&bytes).expect("a payload this build writes");

    let mut world = WorldSections::new();
    let target = IVec3::new(2, 3, 4);
    let air = BlockstateKey::from(0u32);
    let provider = match world.receive(target, parsed, air) {
        Received::Bake(provider) => provider,
        Received::Resync { .. } => panic!("nothing was counted as sent"),
    };

    assert!(provider.blocks[13].is_some());
    assert_eq!(provider.blocks.iter().filter(|b| b.is_some()).count(), 1);
    assert!(provider.light[13].is_some());
    assert_eq!(provider.get_state(IVec3::new(0, 0, 0)), ChunkBlockState::Air);
    assert_eq!(provider.get_state(IVec3::new(1, 0, 0)), ChunkBlockState::State(BlockstateKey::from(key)));
    assert_eq!(provider.get_light_level(IVec3::new(0, 0, 0)).block, 9);
    assert_eq!(provider.get_light_level(IVec3::new(0, 0, 0)).sky, 15);
    assert!(world.blocks(target).is_some());
    assert!(world.light(target).is_some());
    assert!(world.blocks(plus(target, neighbour_offset(0))).is_none());
}

#[test]
fn a_section_counted_as_sent_that_is_not_here_asks_for_a_resync() {
    let mut bytes = payload(&[], &[]);
    // The JVM believes slots 0 and 13 are already here, and slot 13's light.
    set_word(&mut bytes, 4, 1 | (1 << 13));
    set_word(&mut bytes, 5, 1 << 13);
    let parsed = Payload::parse(&bytes).expect("a payload this build writes");

    let mut world = WorldSections::new();
    match world.receive(IVec3::new(0, 0, 0), parsed, BlockstateKey::from(0u32)) {
        Received::Resync { missing_blocks, missing_light } => {
            assert_eq!(missing_blocks, 1 | (1 << 13));
            assert_eq!(missing_light, 1 << 13);
        }
        Received::Bake(_) => panic!("the bake would read holes"),
    }
}

#[test]
fn a_section_the_payload_says_to_forget_is_forgotten() {
    let longs = [0x10i64];
    let palette = [0u32, 1];
    let bytes = payload(&[nibbles(&longs, &palette)], &[]);
    let mut world = WorldSections::new();
    let target = IVec3::new(0, 0, 0);
    let air = BlockstateKey::from(0u32);
    assert!(matches!(
        world.receive(target, Payload::parse(&bytes).unwrap(), air),
        Received::Bake(_)
    ));
    assert!(world.blocks(target).is_some());

    // One block record for slot 13 that carries nothing: the section became air.
    let mut forget = payload(&[], &[]);
    set_word(&mut forget, 2, 1);
    set_word(&mut forget, HEADER_WORDS, 13);
    let parsed = Payload::parse(&forget).unwrap();
    assert_eq!(parsed.absent, 1 << 13);
    match world.receive(target, parsed, air) {
        Received::Bake(provider) => assert!(provider.blocks[13].is_none()),
        Received::Resync { .. } => panic!("nothing was counted as sent"),
    }
    assert!(world.blocks(target).is_none());
}
