//! The section feed: what the JVM hands over for one rebuild, and what is kept of it.
//!
//! One rebuild of one section needs the 27 sections around it. The JVM sends Minecraft's own data:
//! the block storage exactly as `SimpleBitStorage` holds it (its raw longs and the numbers that find
//! a value in them) plus a palette translation table indexed by the Minecraft palette index; the two
//! light layers of the sections whose light changed; and masks of the sections the JVM believes this
//! side already has. Everything arrives in one little-endian buffer, read by [`Payload::parse`].

use vstd::prelude::*;
use vstd::slice::{slice_subrange, slice_to_vec};
use std::collections::HashMap;
use vstd::std_specs::iter::IteratorSpec;
use std::sync::Arc;

verus! {

/// The first four bytes of a payload, so a buffer written by a different build is refused rather
/// than read as if it were this one.
pub const PAYLOAD_MAGIC: u32 = 0x574D_5331;

/// How many sections one call describes: the 3x3x3 around the one being rebuilt.
pub const SECTIONS: usize = 27;

/// Bytes in one light layer: 4096 nibbles, indexed by `(y << 8) | (z << 4) | x`.
pub const LIGHT_BYTES: usize = 2048;

/// Words before the first block record.
pub const HEADER_WORDS: usize = 8;

/// Words in one block record.
pub const BLOCK_RECORD_WORDS: usize = 16;

/// Words in one light record.
pub const LIGHT_RECORD_WORDS: usize = 4;

// ---------------------------------------------------------------------------------------------
// Little-endian reads
// ---------------------------------------------------------------------------------------------

/// The little-endian `u32` at byte offset `start`, or zero when it is not wholly inside `bytes`.
pub open spec fn u32_at(bytes: Seq<u8>, start: int) -> u32 {
    if 0 <= start && start + 4 <= bytes.len() {
        (bytes[start] + 256 * bytes[start + 1] + 65536 * bytes[start + 2] + 16777216 * bytes[start
            + 3]) as u32
    } else {
        0
    }
}

/// Word `index` of `bytes`, read little-endian, or zero when it is not wholly inside them.
pub open spec fn spec_word(bytes: Seq<u8>, index: int) -> u32 {
    u32_at(bytes, 4 * index)
}

/// The eight bytes at `start` as an unsigned little-endian number.
pub open spec fn le_u64_at(bytes: Seq<u8>, start: int) -> int {
    bytes[start] + 256 * bytes[start + 1] + 65536 * bytes[start + 2] + 16777216 * bytes[start + 3]
        + 4294967296 * bytes[start + 4] + 1099511627776 * bytes[start + 5] + 281474976710656
        * bytes[start + 6] + 72057594037927936 * bytes[start + 7]
}

/// Long `index` of `bytes`: eight little-endian bytes read as a two's complement value.
pub open spec fn spec_long(bytes: Seq<u8>, index: int) -> i64 {
    (le_u64_at(bytes, 8 * index) as u64) as i64
}

/// Reads word `index` out of `bytes`, or zero when the word is not wholly inside them.
pub fn read_word(bytes: &[u8], index: usize) -> (word: u32)
    ensures
        word == spec_word(bytes@, index as int),
{
    let len = bytes.len();
    if index > (usize::MAX - 4) / 4 {
        assert(bytes@.len() == len);
        assert(4 * index + 4 > usize::MAX) by (nonlinear_arith)
            requires
                index > (usize::MAX - 4) / 4,
        ;
        return 0;
    }
    if index * 4 + 4 > len {
        return 0;
    }
    let start = index * 4;
    bytes[start] as u32 + (bytes[start + 1] as u32) * 256 + (bytes[start + 2] as u32) * 65536
        + (bytes[start + 3] as u32) * 16777216
}

/// Reads long `index` out of `bytes`, which has to hold it.
pub fn read_long(bytes: &[u8], index: usize) -> (value: i64)
    requires
        8 * index + 8 <= bytes@.len(),
    ensures
        value == spec_long(bytes@, index as int),
{
    let len = bytes.len();
    assert(bytes@.len() == len);
    let start = index * 8;
    let value: u64 = bytes[start] as u64 + (bytes[start + 1] as u64) * 256 + (bytes[start + 2]
        as u64) * 65536 + (bytes[start + 3] as u64) * 16777216 + (bytes[start + 4] as u64)
        * 4294967296 + (bytes[start + 5] as u64) * 1099511627776 + (bytes[start + 6] as u64)
        * 281474976710656 + (bytes[start + 7] as u64) * 72057594037927936;
    #[verifier::truncate]
    (value as i64)
}


// ---------------------------------------------------------------------------------------------
// Minecraft's block storage
// ---------------------------------------------------------------------------------------------

/// Minecraft's `SimpleBitStorage`, copied whole: the longs and the numbers that index them.
///
/// A value `index` lives in long `cell = ((index * divideMul + divideAdd) >> 32) >> divideShift`
/// (the multiplier and addend read as unsigned 32-bit numbers, which is what turns the division
/// by `valuesPerLong` into a multiplication), at bit `(index - cell * valuesPerLong) * bits`, and
/// is `mask` wide. The arithmetic is Java's: 32-bit wrapping for the bit index, and a shift count
/// taken modulo 64.
#[derive(Debug)]
pub struct PackedIntegerArray {
    pub data: Vec<i64>,
    pub values_per_long: i32,
    pub bits: i32,
    pub mask: i64,
    pub divide_mul: i32,
    pub divide_add: i32,
    pub divide_shift: i32,
    pub size: i32,
}

/// The index of the position `(x, y, z)` of a 16x16x16 section: `(y << 8) | (z << 4) | x`.
pub open spec fn position_index(x: int, y: int, z: int) -> int {
    y * 256 + z * 16 + x
}

/// Whether `(x, y, z)` is a position inside one section.
pub open spec fn in_section(x: int, y: int, z: int) -> bool {
    0 <= x < 16 && 0 <= y < 16 && 0 <= z < 16
}

impl PackedIntegerArray {
    /// The long that holds value `index`.
    pub open spec fn spec_cell(&self, index: int) -> u64 {
        ((((index as u64) * (self.divide_mul as u32 as u64) + (self.divide_add as u32 as u64))
            as u64) >> 32u64) >> ((self.divide_shift & 63i32) as u64)
    }

    /// The bit at which value `index` starts inside its long, in Java's 32-bit arithmetic.
    pub open spec fn spec_bit_index(&self, index: int) -> i32 {
        (index as i32).wrapping_sub((self.spec_cell(index) as i32).wrapping_mul(
            self.values_per_long,
        )).wrapping_mul(self.bits)
    }

    /// Value `index`: its bits out of its long, or zero when the long is not in the storage.
    pub open spec fn spec_get(&self, index: int) -> i32 {
        let cell = self.spec_cell(index);
        if cell < self.data@.len() {
            (((self.data@[cell as int] >> ((self.spec_bit_index(index) & 63i32) as i64))
                & self.mask) as i32)
        } else {
            0
        }
    }

    pub fn from_parts(
        data: Vec<i64>,
        values_per_long: i32,
        bits: i32,
        mask: i64,
        divide_mul: i32,
        divide_add: i32,
        divide_shift: i32,
        size: i32,
    ) -> (storage: Self)
        ensures
            storage.data@ == data@,
            storage.values_per_long == values_per_long,
            storage.bits == bits,
            storage.mask == mask,
            storage.divide_mul == divide_mul,
            storage.divide_add == divide_add,
            storage.divide_shift == divide_shift,
            storage.size == size,
    {
        PackedIntegerArray {
            data,
            values_per_long,
            bits,
            mask,
            divide_mul,
            divide_add,
            divide_shift,
            size,
        }
    }

    /// The value at a position inside the section.
    pub fn get(&self, x: i32, y: i32, z: i32) -> (value: i32)
        requires
            in_section(x as int, y as int, z as int),
        ensures
            value == self.spec_get(position_index(x as int, y as int, z as int)),
    {
        let index: u64 = (y as u64) * 256 + (z as u64) * 16 + (x as u64);
        let mul: u64 = self.divide_mul as u32 as u64;
        assert(index * mul <= 4095 * 0xffff_ffff) by (nonlinear_arith)
            requires
                index <= 4095,
                mul <= 0xffff_ffff,
        ;
        let divide_shift = self.divide_shift;
        let sh: i32 = divide_shift & 63i32;
        assert(0 <= (divide_shift & 63i32) < 64) by (bit_vector);
        let add: u64 = #[verifier::truncate] (self.divide_add as u32) as u64;
        let cell: u64 = ((index * mul) + add) >> 32u64 >> (sh as u64);
        assert(cell == self.spec_cell(position_index(x as int, y as int, z as int)));
        if cell >= self.data.len() as u64 {
            return 0;
        }
        let bit_index: i32 = (index as i32).wrapping_sub((cell as i32).wrapping_mul(
            self.values_per_long,
        )).wrapping_mul(self.bits);
        let shift: i32 = bit_index & 63i32;
        assert(0 <= (bit_index & 63i32) < 64) by (bit_vector);
        let long: i64 = self.data[cell as usize];
        let masked: i64 = (long >> (shift as i64)) & self.mask;
        #[verifier::truncate]
        (masked as i32)
    }
}

/// A packed block key, as the renderer's block registry numbers block states.
#[derive(Clone, Copy, Debug, PartialEq, Eq, Structural)]
pub struct BlockstateKey {
    pub packed: u32,
}

impl From<u32> for BlockstateKey {
    fn from(packed: u32) -> (key: Self) {
        BlockstateKey { packed }
    }
}

impl vstd::std_specs::convert::FromSpecImpl<u32> for BlockstateKey {
    open spec fn obeys_from_spec() -> bool {
        true
    }

    open spec fn from_spec(v: u32) -> Self {
        BlockstateKey { packed: v }
    }
}

/// One section's block data, decoded the way Minecraft would decode it.
#[derive(Debug)]
pub struct SectionBlocks {
    /// Minecraft's storage, copied whole: the longs and the numbers that index them.
    pub storage: PackedIntegerArray,
    /// `palette[minecraft index]` is the renderer's block key.
    pub palette: Vec<u32>,
}

impl SectionBlocks {
    /// The key a section holds at the position with index `index`, or `None` when its storage
    /// names a palette entry that is not there.
    pub open spec fn spec_key(&self, index: int) -> Option<BlockstateKey> {
        let entry = self.storage.spec_get(index);
        if 0 <= entry < self.palette@.len() {
            Some(BlockstateKey { packed: self.palette@[entry as int] })
        } else {
            None
        }
    }

    /// The block key at a position **inside this section**, or `None` when the storage names a
    /// palette entry that is not there - which air is, rather than a panic.
    pub fn key(&self, x: i32, y: i32, z: i32) -> (key: Option<BlockstateKey>)
        requires
            in_section(x as int, y as int, z as int),
        ensures
            key == self.spec_key(position_index(x as int, y as int, z as int)),
    {
        let index = self.storage.get(x, y, z);
        if index < 0 || index as usize >= self.palette.len() {
            return None;
        }
        Some(BlockstateKey { packed: self.palette[index as usize] })
    }
}


/// One section's two light layers, as the nibble arrays Minecraft's light engine holds.
#[derive(Debug)]
pub struct SectionLight {
    pub block: Vec<u8>,
    pub sky: Vec<u8>,
}

// ---------------------------------------------------------------------------------------------
// The payload
// ---------------------------------------------------------------------------------------------

/// What a section's block data holds, as plain values.
pub struct BlocksView {
    pub values_per_long: i32,
    pub bits: i32,
    pub mask: i64,
    pub divide_mul: i32,
    pub divide_add: i32,
    pub divide_shift: i32,
    pub size: i32,
    pub longs: Seq<i64>,
    pub palette: Seq<u32>,
}

impl View for SectionBlocks {
    type V = BlocksView;

    open spec fn view(&self) -> BlocksView {
        BlocksView {
            values_per_long: self.storage.values_per_long,
            bits: self.storage.bits,
            mask: self.storage.mask,
            divide_mul: self.storage.divide_mul,
            divide_add: self.storage.divide_add,
            divide_shift: self.storage.divide_shift,
            size: self.storage.size,
            longs: self.storage.data@,
            palette: self.palette@,
        }
    }
}

/// One light record's two layers, block light first.
pub type LightView = (Seq<u8>, Seq<u8>);

/// What a parsed payload holds, as plain values.
pub struct PayloadView {
    pub blocks: Seq<Option<BlocksView>>,
    pub present: u32,
    pub absent: u32,
    pub known_blocks: u32,
    pub light: Seq<(usize, LightView)>,
    pub light_absent: u32,
    pub known_light: u32,
}

/// One parsed call: what arrived with it.
#[derive(Debug)]
pub struct Payload {
    /// The 27 slots, `Some` where the payload carried block data for that neighbour.
    pub blocks: Vec<Option<SectionBlocks>>,
    /// Which slots came with block data.
    pub present: u32,
    /// Which slots the payload says to forget: the section became air, or it was unloaded.
    pub absent: u32,
    /// Which slots the JVM believes this side already has block data for.
    pub known_blocks: u32,
    /// The light that changed, by slot.
    pub light: Vec<(usize, SectionLight)>,
    /// Which slots the payload says to forget the light of.
    pub light_absent: u32,
    /// Which slots the JVM believes this side already has light for.
    pub known_light: u32,
}

/// Every light record names one of the 27 slots and carries two full layers.
pub open spec fn lights_wf(light: Seq<(usize, SectionLight)>) -> bool {
    forall|k: int|
        0 <= k < light.len() ==> (#[trigger] light[k]).0 < SECTIONS && light[k].1.block@.len()
            == LIGHT_BYTES && light[k].1.sky@.len() == LIGHT_BYTES
}

impl Payload {
    /// 27 block slots, and light records that each name one of them and carry two full layers.
    pub open spec fn wf(&self) -> bool {
        &&& self.blocks@.len() == SECTIONS
        &&& lights_wf(self.light@)
    }
}

pub open spec fn slot_view(slot: Option<SectionBlocks>) -> Option<BlocksView> {
    match slot {
        Some(blocks) => Some(blocks@),
        None => None,
    }
}

pub open spec fn slots_view(slots: Seq<Option<SectionBlocks>>) -> Seq<Option<BlocksView>> {
    Seq::new(slots.len(), |i: int| slot_view(slots[i]))
}

pub open spec fn lights_view(light: Seq<(usize, SectionLight)>) -> Seq<(usize, LightView)> {
    Seq::new(light.len(), |i: int| (light[i].0, (light[i].1.block@, light[i].1.sky@)))
}

impl View for Payload {
    type V = PayloadView;

    open spec fn view(&self) -> PayloadView {
        PayloadView {
            blocks: slots_view(self.blocks@),
            present: self.present,
            absent: self.absent,
            known_blocks: self.known_blocks,
            light: lights_view(self.light@),
            light_absent: self.light_absent,
            known_light: self.known_light,
        }
    }
}

/// The word at which block record `r` starts.
pub open spec fn block_record_at(r: int) -> int {
    HEADER_WORDS + BLOCK_RECORD_WORDS * r
}

/// Field `k` of block record `r`.
pub open spec fn block_field(bytes: Seq<u8>, r: int, k: int) -> u32 {
    spec_word(bytes, block_record_at(r) + k)
}

/// The word at which light record `j` starts: past the *whole* block region, so that a payload
/// carrying fewer than 27 block records still has its light in the same place.
pub open spec fn light_record_at(j: int) -> int {
    HEADER_WORDS + SECTIONS * BLOCK_RECORD_WORDS + LIGHT_RECORD_WORDS * j
}

/// Field `k` of light record `j`.
pub open spec fn light_field(bytes: Seq<u8>, j: int, k: int) -> u32 {
    spec_word(bytes, light_record_at(j) + k)
}

/// Whether block record `r` can be read: the record itself is inside the buffer, and so are the
/// palette and the longs of a record that carries block data.
pub open spec fn block_record_readable(bytes: Seq<u8>, r: int) -> bool {
    &&& 4 * (block_record_at(r) + BLOCK_RECORD_WORDS) <= bytes.len()
    &&& (block_field(bytes, r, 0) >= SECTIONS || block_field(bytes, r, 1) == 0 || (
    block_field(bytes, r, 11) + 4 * block_field(bytes, r, 10) <= bytes.len() && block_field(
        bytes,
        r,
        13,
    ) + 8 * block_field(bytes, r, 12) <= bytes.len()))
}

/// Whether light record `j` can be read: the record is inside the buffer, and so are the two layers
/// of a record that carries light.
pub open spec fn light_record_readable(bytes: Seq<u8>, j: int) -> bool {
    &&& 4 * (light_record_at(j) + LIGHT_RECORD_WORDS) <= bytes.len()
    &&& (light_field(bytes, j, 0) >= SECTIONS || light_field(bytes, j, 1) == 0 || light_field(
        bytes,
        j,
        2,
    ) == 0 || (light_field(bytes, j, 1) + LIGHT_BYTES <= bytes.len() && light_field(bytes, j, 2)
        + LIGHT_BYTES <= bytes.len()))
}

/// The block data block record `r` carries.
pub open spec fn decode_blocks(bytes: Seq<u8>, r: int) -> BlocksView {
    let palette_start = block_field(bytes, r, 11) as int;
    let longs_start = block_field(bytes, r, 13) as int;
    BlocksView {
        values_per_long: block_field(bytes, r, 4) as i32,
        bits: block_field(bytes, r, 2) as i32,
        mask: ((block_field(bytes, r, 5) as u64) | ((block_field(bytes, r, 6) as u64) << 32u64))
            as i64,
        divide_mul: block_field(bytes, r, 7) as i32,
        divide_add: block_field(bytes, r, 8) as i32,
        divide_shift: block_field(bytes, r, 9) as i32,
        size: block_field(bytes, r, 3) as i32,
        longs: Seq::new(
            block_field(bytes, r, 12) as nat,
            |i: int| (le_u64_at(bytes, longs_start + 8 * i) as u64) as i64,
        ),
        palette: Seq::new(
            block_field(bytes, r, 10) as nat,
            |i: int| u32_at(bytes, palette_start + 4 * i),
        ),
    }
}

/// The 27 slots, the `present` mask and the `absent` mask after the first `n` block records.
///
/// A record whose slot is out of range is skipped, one that says "no block data" marks its slot
/// absent, and one that carries block data fills its slot - a later record for the same slot
/// replacing an earlier one.
pub open spec fn blocks_after(bytes: Seq<u8>, n: nat) -> (Seq<Option<BlocksView>>, u32, u32)
    decreases n,
{
    if n == 0 {
        (Seq::new(SECTIONS as nat, |i: int| None), 0u32, 0u32)
    } else {
        let before = blocks_after(bytes, (n - 1) as nat);
        let r = n - 1;
        let index = block_field(bytes, r, 0);
        if index >= SECTIONS {
            before
        } else if block_field(bytes, r, 1) == 0 {
            (before.0, before.1, before.2 | (1u32 << index))
        } else {
            (
                before.0.update(index as int, Some(decode_blocks(bytes, r))),
                before.1 | (1u32 << index),
                before.2,
            )
        }
    }
}

/// The light that changed, and the `light_absent` mask, after the first `n` light records.
pub open spec fn light_after(bytes: Seq<u8>, n: nat) -> (Seq<(usize, LightView)>, u32)
    decreases n,
{
    if n == 0 {
        (Seq::empty(), 0u32)
    } else {
        let before = light_after(bytes, (n - 1) as nat);
        let j = n - 1;
        let index = light_field(bytes, j, 0);
        let block_start = light_field(bytes, j, 1) as int;
        let sky_start = light_field(bytes, j, 2) as int;
        if index >= SECTIONS {
            before
        } else if block_start == 0 || sky_start == 0 {
            (before.0, before.1 | (1u32 << index))
        } else {
            (
                before.0.push(
                    (
                        index as usize,
                        (
                            bytes.subrange(block_start, block_start + LIGHT_BYTES),
                            bytes.subrange(sky_start, sky_start + LIGHT_BYTES),
                        ),
                    ),
                ),
                before.1,
            )
        }
    }
}

/// Whether a buffer is a payload this build can read: the magic matches, it describes no more than
/// the 27 sections a bake covers, and every record it describes is inside it.
pub open spec fn payload_acceptable(bytes: Seq<u8>) -> bool {
    &&& spec_word(bytes, 0) == PAYLOAD_MAGIC
    &&& spec_word(bytes, 2) <= SECTIONS
    &&& spec_word(bytes, 3) <= SECTIONS
    &&& forall|r: int| 0 <= r < spec_word(bytes, 2) ==> block_record_readable(bytes, r)
    &&& forall|j: int| 0 <= j < spec_word(bytes, 3) ==> light_record_readable(bytes, j)
}

/// What an acceptable buffer describes.
pub open spec fn spec_payload(bytes: Seq<u8>) -> PayloadView {
    let blocks = blocks_after(bytes, spec_word(bytes, 2) as nat);
    let light = light_after(bytes, spec_word(bytes, 3) as nat);
    PayloadView {
        blocks: blocks.0,
        present: blocks.1,
        absent: blocks.2,
        known_blocks: spec_word(bytes, 4),
        light: light.0,
        light_absent: light.1,
        known_light: spec_word(bytes, 5),
    }
}

/// Reads the block data of the block record that starts at word `at`, which carries some.
fn read_section(bytes: &[u8], at: usize, Ghost(r): Ghost<int>) -> (section: Option<SectionBlocks>)
    requires
        at == block_record_at(r),
        0 <= r < SECTIONS,
        4 * (at + BLOCK_RECORD_WORDS) <= bytes@.len(),
    ensures
        section is Some <==> (block_field(bytes@, r, 11) + 4 * block_field(bytes@, r, 10)
            <= bytes@.len() && block_field(bytes@, r, 13) + 8 * block_field(bytes@, r, 12)
            <= bytes@.len()),
        section matches Some(s) ==> s@ == decode_blocks(bytes@, r),
{
    let len = bytes.len();
    let bits = read_word(bytes, at + 2);
    let size = read_word(bytes, at + 3);
    let values_per_long = read_word(bytes, at + 4);
    let mask_low = read_word(bytes, at + 5);
    let mask_high = read_word(bytes, at + 6);
    let divide_mul = read_word(bytes, at + 7);
    let divide_add = read_word(bytes, at + 8);
    let divide_shift = read_word(bytes, at + 9);
    let palette_len = read_word(bytes, at + 10);
    let palette_start = read_word(bytes, at + 11);
    let longs_len = read_word(bytes, at + 12);
    let longs_start = read_word(bytes, at + 13);

    if palette_start as u64 + 4 * (palette_len as u64) > len as u64 {
        return None;
    }
    if longs_start as u64 + 8 * (longs_len as u64) > len as u64 {
        return None;
    }

    let palette_bytes = slice_subrange(
        bytes,
        palette_start as usize,
        palette_start as usize + 4 * (palette_len as usize),
    );
    let mut palette: Vec<u32> = Vec::new();
    let mut i: u32 = 0;
    while i < palette_len
        invariant
            i <= palette_len,
            palette_len == block_field(bytes@, r, 10),
            palette_start == block_field(bytes@, r, 11),
            palette_start + 4 * palette_len <= bytes@.len(),
            palette_bytes@ == bytes@.subrange(
                palette_start as int,
                palette_start + 4 * palette_len,
            ),
            palette@.len() == i,
            forall|k: int|
                0 <= k < i ==> palette@[k] == u32_at(bytes@, palette_start + 4 * k),
        decreases palette_len - i,
    {
        let word = read_word(palette_bytes, i as usize);
        assert(palette_bytes@[4 * i as int] == bytes@[palette_start + 4 * i]);
        assert(palette_bytes@[4 * i + 1] == bytes@[palette_start + 4 * i + 1]);
        assert(palette_bytes@[4 * i + 2] == bytes@[palette_start + 4 * i + 2]);
        assert(palette_bytes@[4 * i + 3] == bytes@[palette_start + 4 * i + 3]);
        palette.push(word);
        i = i + 1;
    }

    let long_bytes = slice_subrange(
        bytes,
        longs_start as usize,
        longs_start as usize + 8 * (longs_len as usize),
    );
    let mut longs: Vec<i64> = Vec::new();
    let mut j: u32 = 0;
    while j < longs_len
        invariant
            j <= longs_len,
            longs_len == block_field(bytes@, r, 12),
            longs_start == block_field(bytes@, r, 13),
            longs_start + 8 * longs_len <= bytes@.len(),
            long_bytes@ == bytes@.subrange(longs_start as int, longs_start + 8 * longs_len),
            longs@.len() == j,
            forall|k: int|
                0 <= k < j ==> longs@[k] == (le_u64_at(bytes@, longs_start + 8 * k) as u64) as i64,
        decreases longs_len - j,
    {
        let value = read_long(long_bytes, j as usize);
        assert(long_bytes@[8 * j as int] == bytes@[longs_start + 8 * j]);
        assert(long_bytes@[8 * j + 1] == bytes@[longs_start + 8 * j + 1]);
        assert(long_bytes@[8 * j + 2] == bytes@[longs_start + 8 * j + 2]);
        assert(long_bytes@[8 * j + 3] == bytes@[longs_start + 8 * j + 3]);
        assert(long_bytes@[8 * j + 4] == bytes@[longs_start + 8 * j + 4]);
        assert(long_bytes@[8 * j + 5] == bytes@[longs_start + 8 * j + 5]);
        assert(long_bytes@[8 * j + 6] == bytes@[longs_start + 8 * j + 6]);
        assert(long_bytes@[8 * j + 7] == bytes@[longs_start + 8 * j + 7]);
        longs.push(value);
        j = j + 1;
    }

    let mask: u64 = (mask_low as u64) | ((mask_high as u64) << 32u64);
    let storage = PackedIntegerArray::from_parts(
        longs,
        #[verifier::truncate] (values_per_long as i32),
        #[verifier::truncate] (bits as i32),
        #[verifier::truncate] (mask as i64),
        #[verifier::truncate] (divide_mul as i32),
        #[verifier::truncate] (divide_add as i32),
        #[verifier::truncate] (divide_shift as i32),
        #[verifier::truncate] (size as i32),
    );
    let section = SectionBlocks { storage, palette };
    assert(section@.palette =~= decode_blocks(bytes@, r).palette);
    assert(section@.longs =~= decode_blocks(bytes@, r).longs);
    Some(section)
}

/// Copies the light layer that starts at byte `start`.
fn read_layer(bytes: &[u8], start: usize) -> (layer: Vec<u8>)
    requires
        start + LIGHT_BYTES <= bytes@.len(),
    ensures
        layer@ == bytes@.subrange(start as int, start + LIGHT_BYTES),
{
    let len = bytes.len();
    assert(len == bytes@.len());
    slice_to_vec(slice_subrange(bytes, start, start + LIGHT_BYTES))
}

/// Reads block record `r` into the slots and masks, or answers `false` when it cannot be read.
fn apply_block_record(
    bytes: &[u8],
    r: u32,
    blocks: &mut Vec<Option<SectionBlocks>>,
    present: &mut u32,
    absent: &mut u32,
) -> (readable: bool)
    requires
        r < SECTIONS,
        old(blocks)@.len() == SECTIONS,
        slots_view(old(blocks)@) == blocks_after(bytes@, r as nat).0,
        *old(present) == blocks_after(bytes@, r as nat).1,
        *old(absent) == blocks_after(bytes@, r as nat).2,
    ensures
        readable == block_record_readable(bytes@, r as int),
        final(blocks)@.len() == SECTIONS,
        readable ==> slots_view(final(blocks)@) == blocks_after(bytes@, (r + 1) as nat).0,
        readable ==> *final(present) == blocks_after(bytes@, (r + 1) as nat).1,
        readable ==> *final(absent) == blocks_after(bytes@, (r + 1) as nat).2,
{
    let len = bytes.len();
    let at: usize = HEADER_WORDS + BLOCK_RECORD_WORDS * (r as usize);
    if 4 * (at + BLOCK_RECORD_WORDS) > len {
        return false;
    }
    let index = read_word(bytes, at);
    if index >= 27 {
        return true;
    }
    if read_word(bytes, at + 1) == 0 {
        *absent = *absent | (1u32 << index);
        return true;
    }
    match read_section(bytes, at, Ghost(r as int)) {
        None => false,
        Some(section) => {
            let ghost before = blocks@;
            blocks.set(index as usize, Some(section));
            assert(slots_view(blocks@) =~= slots_view(before).update(
                index as int,
                Some(decode_blocks(bytes@, r as int)),
            ));
            *present = *present | (1u32 << index);
            true
        },
    }
}

/// Reads light record `j` into the light list and mask, or answers `false` when it cannot be read.
fn apply_light_record(
    bytes: &[u8],
    j: u32,
    light: &mut Vec<(usize, SectionLight)>,
    light_absent: &mut u32,
) -> (readable: bool)
    requires
        j < SECTIONS,
        lights_view(old(light)@) == light_after(bytes@, j as nat).0,
        *old(light_absent) == light_after(bytes@, j as nat).1,
        lights_wf(old(light)@),
    ensures
        lights_wf(final(light)@),
        readable == light_record_readable(bytes@, j as int),
        readable ==> lights_view(final(light)@) == light_after(bytes@, (j + 1) as nat).0,
        readable ==> *final(light_absent) == light_after(bytes@, (j + 1) as nat).1,
{
    let len = bytes.len();
    let at: usize = HEADER_WORDS + SECTIONS * BLOCK_RECORD_WORDS + LIGHT_RECORD_WORDS * (j as usize);
    if 4 * (at + LIGHT_RECORD_WORDS) > len {
        return false;
    }
    let index = read_word(bytes, at);
    if index >= 27 {
        return true;
    }
    let block_start = read_word(bytes, at + 1);
    let sky_start = read_word(bytes, at + 2);
    if block_start == 0 || sky_start == 0 {
        *light_absent = *light_absent | (1u32 << index);
        return true;
    }
    if block_start as u64 + LIGHT_BYTES as u64 > len as u64 {
        return false;
    }
    if sky_start as u64 + LIGHT_BYTES as u64 > len as u64 {
        return false;
    }
    let block = read_layer(bytes, block_start as usize);
    let sky = read_layer(bytes, sky_start as usize);
    let ghost before = light@;
    light.push((index as usize, SectionLight { block, sky }));
    assert(lights_view(light@) =~= lights_view(before).push(
        (
            index as usize,
            (
                bytes@.subrange(block_start as int, block_start + LIGHT_BYTES),
                bytes@.subrange(sky_start as int, sky_start + LIGHT_BYTES),
            ),
        ),
    ));
    true
}

impl Payload {
    /// Reads a payload written by `RustChunkBake`.
    ///
    /// Every field is read as little-endian bytes out of the buffer, so the writer does not have to
    /// align anything and this cannot fault: a length or an offset that runs past the end of the
    /// buffer is `None`, which the caller reports as a dropped bake rather than as a panic.
    pub fn parse(bytes: &[u8]) -> (parsed: Option<Self>)
        ensures
            parsed is Some <==> payload_acceptable(bytes@),
            parsed matches Some(payload) ==> payload@ == spec_payload(bytes@),
            parsed matches Some(payload) ==> payload.wf(),
    {
        let len = bytes.len();
        let magic = read_word(bytes, 0);
        if magic != PAYLOAD_MAGIC {
            return None;
        }
        let block_count = read_word(bytes, 2);
        let light_count = read_word(bytes, 3);
        if block_count > 27 || light_count > 27 {
            return None;
        }

        let mut blocks: Vec<Option<SectionBlocks>> = Vec::new();
        let mut slot: usize = 0;
        while slot < SECTIONS
            invariant
                slot <= SECTIONS,
                blocks@.len() == slot,
                forall|k: int| 0 <= k < slot ==> blocks@[k] is None,
            decreases SECTIONS - slot,
        {
            blocks.push(None);
            slot = slot + 1;
        }
        assert(slots_view(blocks@) =~= blocks_after(bytes@, 0).0);

        let mut present: u32 = 0;
        let mut absent: u32 = 0;
        let mut r: u32 = 0;
        while r < block_count
            invariant
                r <= block_count <= SECTIONS,
                block_count == spec_word(bytes@, 2),
                len == bytes@.len(),
                blocks@.len() == SECTIONS,
                forall|k: int| 0 <= k < r ==> block_record_readable(bytes@, k),
                slots_view(blocks@) == blocks_after(bytes@, r as nat).0,
                present == blocks_after(bytes@, r as nat).1,
                absent == blocks_after(bytes@, r as nat).2,
            decreases block_count - r,
        {
            if !apply_block_record(bytes, r, &mut blocks, &mut present, &mut absent) {
                assert(!block_record_readable(bytes@, r as int));
                return None;
            }
            r = r + 1;
        }

        let mut light: Vec<(usize, SectionLight)> = Vec::new();
        let mut light_absent: u32 = 0;
        let mut j: u32 = 0;
        assert(lights_view(light@) =~= light_after(bytes@, 0).0);
        while j < light_count
            invariant
                j <= light_count <= SECTIONS,
                light_count == spec_word(bytes@, 3),
                len == bytes@.len(),
                forall|k: int| 0 <= k < j ==> light_record_readable(bytes@, k),
                lights_view(light@) == light_after(bytes@, j as nat).0,
                light_absent == light_after(bytes@, j as nat).1,
                lights_wf(light@),
                blocks@.len() == SECTIONS,
            decreases light_count - j,
        {
            if !apply_light_record(bytes, j, &mut light, &mut light_absent) {
                assert(!light_record_readable(bytes@, j as int));
                return None;
            }
            j = j + 1;
        }

        let known_blocks = read_word(bytes, 4);
        let known_light = read_word(bytes, 5);
        Some(
            Payload {
                blocks,
                present,
                absent,
                known_blocks,
                light,
                light_absent,
                known_light,
            },
        )
    }
}


// ---------------------------------------------------------------------------------------------
// Positions
// ---------------------------------------------------------------------------------------------

/// A section position, or an offset between two of them.
#[derive(Clone, Copy, Debug, PartialEq, Eq, Structural)]
pub struct IVec3 {
    pub x: i32,
    pub y: i32,
    pub z: i32,
}

impl IVec3 {
    pub fn new(x: i32, y: i32, z: i32) -> (v: IVec3)
        ensures
            v == (IVec3 { x, y, z }),
    {
        IVec3 { x, y, z }
    }
}

/// The offset of neighbour `index`: x fastest, then y, then z.
pub open spec fn spec_neighbour_offset(index: int) -> IVec3 {
    IVec3 { x: (index % 3 - 1) as i32, y: ((index / 3) % 3 - 1) as i32, z: (index / 9 - 1) as i32 }
}

/// The offset of neighbour `index` from the section being baked, in the order the payload uses:
/// x fastest, then y, then z - the order `RenderSectionRegion` and `bake_layers` both use.
pub fn neighbour_offset(index: usize) -> (offset: IVec3)
    requires
        index < SECTIONS,
    ensures
        offset == spec_neighbour_offset(index as int),
{
    IVec3 {
        x: (index % 3) as i32 - 1,
        y: ((index / 3) % 3) as i32 - 1,
        z: (index / 9) as i32 - 1,
    }
}

/// Whether `a + b` fits every coordinate.
pub open spec fn adds_without_overflow(a: IVec3, b: IVec3) -> bool {
    &&& i32::MIN <= a.x + b.x <= i32::MAX
    &&& i32::MIN <= a.y + b.y <= i32::MAX
    &&& i32::MIN <= a.z + b.z <= i32::MAX
}

pub open spec fn spec_add(a: IVec3, b: IVec3) -> IVec3 {
    IVec3 { x: (a.x + b.x) as i32, y: (a.y + b.y) as i32, z: (a.z + b.z) as i32 }
}

fn add_offset(a: IVec3, b: IVec3) -> (sum: IVec3)
    requires
        adds_without_overflow(a, b),
    ensures
        sum == spec_add(a, b),
{
    IVec3 { x: a.x + b.x, y: a.y + b.y, z: a.z + b.z }
}

/// Whether every neighbour of `target` is a position, i.e. no coordinate is at the end of `i32`.
pub open spec fn has_neighbours(target: IVec3) -> bool {
    &&& i32::MIN < target.x < i32::MAX
    &&& i32::MIN < target.y < i32::MAX
    &&& i32::MIN < target.z < i32::MAX
}

/// The key a section position is stored under: the three coordinates, each moved into the
/// unsigned range, side by side in one 128-bit number.
pub open spec fn spec_position_key(pos: IVec3) -> u128 {
    ((pos.x + 0x8000_0000) + 0x1_0000_0000 * (pos.y + 0x8000_0000) + 0x1_0000_0000_0000_0000 * (
    pos.z + 0x8000_0000)) as u128
}

fn position_key(pos: IVec3) -> (key: u128)
    ensures
        key == spec_position_key(pos),
{
    let x = (pos.x as i64 + 0x8000_0000) as u128;
    let y = (pos.y as i64 + 0x8000_0000) as u128;
    let z = (pos.z as i64 + 0x8000_0000) as u128;
    x + 0x1_0000_0000 * y + 0x1_0000_0000_0000_0000 * z
}

/// Different positions are stored under different keys.
pub proof fn lemma_position_key_injective(a: IVec3, b: IVec3)
    ensures
        spec_position_key(a) == spec_position_key(b) ==> a == b,
{
    lemma_key_position(a);
    lemma_key_position(b);
}

// ---------------------------------------------------------------------------------------------
// Masks over the 27 slots
// ---------------------------------------------------------------------------------------------

/// The mask with bit `i` set for every `i < n` for which `member(i)` holds.
pub open spec fn mask_of(member: spec_fn(int) -> bool, n: nat) -> u32
    decreases n,
{
    if n == 0 {
        0
    } else if member(n - 1) {
        mask_of(member, (n - 1) as nat) | (1u32 << ((n - 1) as u32))
    } else {
        mask_of(member, (n - 1) as nat)
    }
}

/// Whether bit `i` of `mask` is set.
pub open spec fn has_bit(mask: u32, i: int) -> bool {
    (mask >> (i as u32)) & 1u32 == 1u32
}

proof fn lemma_or_bit(below: u32, top: u32, i: u32)
    by (bit_vector)
    requires
        i < 32,
        top < 32,
    ensures
        (((below | (1u32 << top)) >> i) & 1u32 == 1u32) == (((below >> i) & 1u32 == 1u32) || i
            == top),
{
}

/// Bit `i` of `mask_of(member, n)`, for a slot `i < 32`, is whether `i < n` and `member(i)`.
pub proof fn lemma_mask_of_bit(member: spec_fn(int) -> bool, n: nat, i: int)
    requires
        n <= 32,
        0 <= i < 32,
    ensures
        has_bit(mask_of(member, n), i) <==> (i < n && member(i)),
    decreases n,
{
    if n > 0 {
        lemma_mask_of_bit(member, (n - 1) as nat, i);
        let below = mask_of(member, (n - 1) as nat);
        let top = (n - 1) as u32;
        let iu = i as u32;
        lemma_or_bit(below, top, iu);
    } else {
        let iu = i as u32;
        assert(((0u32 >> iu) & 1u32) == 0u32) by (bit_vector);
    }
}

// ---------------------------------------------------------------------------------------------
// The world cache
// ---------------------------------------------------------------------------------------------

/// How many sections may be held before a trim is considered.
pub const CACHE_SOFT_LIMIT: usize = 4096;

/// How often a trim is considered, in stores.
pub const TRIM_EVERY: u64 = 256;

/// How far a section may be from the one being baked, in chunks, before a trim drops it.
pub const TRIM_RADIUS: i32 = 48;

/// The block data and the light of every section this side has been told about.
///
/// One `Arc` per section, replaced whole when the JVM sends a new version, so a bake that is
/// already running keeps the version it started with. Light is kept separately because it changes
/// on its own schedule.
pub struct WorldSections {
    blocks: HashMap<u128, Arc<SectionBlocks>>,
    light: HashMap<u128, Arc<SectionLight>>,
    /// Bumped every time a section is stored, so trimming can tell what has been in use.
    tick: u64,
    last_trim: u64,
}

/// The positions a key map holds.
pub open spec fn positions<V>(map: Map<u128, V>) -> Set<IVec3> {
    Set::new(|pos: IVec3| map.contains_key(spec_position_key(pos)))
}

impl Default for WorldSections {
    fn default() -> (world: Self)
        ensures
            world.wf(),
            world.block_positions() == Set::<IVec3>::empty(),
            world.light_positions() == Set::<IVec3>::empty(),
    {
        WorldSections::new()
    }
}

impl WorldSections {
    /// The positions this side has block data for.
    pub closed spec fn block_positions(&self) -> Set<IVec3> {
        positions(self.blocks@)
    }

    /// The positions this side has light for.
    pub closed spec fn light_positions(&self) -> Set<IVec3> {
        positions(self.light@)
    }

    /// The block data stored for a position.
    pub closed spec fn blocks_at(&self, pos: IVec3) -> SectionBlocks {
        *self.blocks@[spec_position_key(pos)]
    }

    /// The light stored for a position.
    pub closed spec fn light_at(&self, pos: IVec3) -> SectionLight {
        *self.light@[spec_position_key(pos)]
    }

    pub closed spec fn stores(&self) -> u64 {
        self.tick
    }

    pub closed spec fn wf(&self) -> bool {
        self.last_trim <= self.tick
    }

    pub fn new() -> (world: Self)
        ensures
            world.wf(),
            world.block_positions() == Set::<IVec3>::empty(),
            world.light_positions() == Set::<IVec3>::empty(),
    {
        let world = WorldSections { blocks: HashMap::new(), light: HashMap::new(), tick: 0, last_trim: 0 };
        assert(world.block_positions() =~= Set::<IVec3>::empty());
        assert(world.light_positions() =~= Set::<IVec3>::empty());
        world
    }

    /// Stores one section's block data, replacing whatever was there.
    pub fn set_blocks(&mut self, pos: IVec3, blocks: Arc<SectionBlocks>)
        requires
            old(self).wf(),
        ensures
            final(self).wf(),
            final(self).block_positions() == old(self).block_positions().insert(pos),
            final(self).light_positions() == old(self).light_positions(),
            final(self).blocks_at(pos) == *blocks,
            forall|other: IVec3|
                other != pos ==> final(self).blocks_at(other) == old(self).blocks_at(other),
            forall|other: IVec3| final(self).light_at(other) == old(self).light_at(other),
    {
        broadcast use vstd::std_specs::hash::group_hash_axioms;
        let key = position_key(pos);
        self.blocks.insert(key, blocks);
        self.tick = self.tick.wrapping_add(1);
        if self.tick < self.last_trim {
            self.last_trim = self.tick;
        }
        assert forall|other: IVec3| #[trigger] self.block_positions().contains(other) == old(self).block_positions().insert(pos).contains(other) by {
            lemma_position_key_injective(other, pos);
        }
        assert(self.block_positions() =~= old(self).block_positions().insert(pos));
        assert forall|other: IVec3| other != pos implies #[trigger] self.blocks_at(other) == old(self).blocks_at(other) by {
            lemma_position_key_injective(other, pos);
        }
    }

    pub fn remove_blocks(&mut self, pos: IVec3)
        requires
            old(self).wf(),
        ensures
            final(self).wf(),
            final(self).block_positions() == old(self).block_positions().remove(pos),
            final(self).light_positions() == old(self).light_positions(),
            forall|other: IVec3|
                other != pos ==> final(self).blocks_at(other) == old(self).blocks_at(other),
            forall|other: IVec3| final(self).light_at(other) == old(self).light_at(other),
    {
        broadcast use vstd::std_specs::hash::group_hash_axioms;
        let key = position_key(pos);
        self.blocks.remove(&key);
        assert forall|other: IVec3| #[trigger] self.block_positions().contains(other) == old(self).block_positions().remove(pos).contains(other) by {
            lemma_position_key_injective(other, pos);
        }
        assert(self.block_positions() =~= old(self).block_positions().remove(pos));
        assert forall|other: IVec3| other != pos implies #[trigger] self.blocks_at(other) == old(self).blocks_at(other) by {
            lemma_position_key_injective(other, pos);
        }
    }

    pub fn blocks(&self, pos: IVec3) -> (found: Option<Arc<SectionBlocks>>)
        ensures
            found is Some <==> self.block_positions().contains(pos),
            found matches Some(blocks) ==> *blocks == self.blocks_at(pos),
    {
        broadcast use vstd::std_specs::hash::group_hash_axioms;
        let key = position_key(pos);
        match self.blocks.get(&key) {
            Some(blocks) => Some(blocks.clone()),
            None => None,
        }
    }

    /// Stores the light of one section, replacing whatever was there.
    pub fn set_light(&mut self, pos: IVec3, light: Arc<SectionLight>)
        requires
            old(self).wf(),
        ensures
            final(self).wf(),
            final(self).light_positions() == old(self).light_positions().insert(pos),
            final(self).block_positions() == old(self).block_positions(),
            final(self).light_at(pos) == *light,
            forall|other: IVec3|
                other != pos ==> final(self).light_at(other) == old(self).light_at(other),
            forall|other: IVec3| final(self).blocks_at(other) == old(self).blocks_at(other),
    {
        broadcast use vstd::std_specs::hash::group_hash_axioms;
        let key = position_key(pos);
        self.light.insert(key, light);
        self.tick = self.tick.wrapping_add(1);
        if self.tick < self.last_trim {
            self.last_trim = self.tick;
        }
        assert forall|other: IVec3| #[trigger] self.light_positions().contains(other) == old(self).light_positions().insert(pos).contains(other) by {
            lemma_position_key_injective(other, pos);
        }
        assert(self.light_positions() =~= old(self).light_positions().insert(pos));
        assert forall|other: IVec3| other != pos implies #[trigger] self.light_at(other) == old(self).light_at(other) by {
            lemma_position_key_injective(other, pos);
        }
    }

    pub fn remove_light(&mut self, pos: IVec3)
        requires
            old(self).wf(),
        ensures
            final(self).wf(),
            final(self).light_positions() == old(self).light_positions().remove(pos),
            final(self).block_positions() == old(self).block_positions(),
            forall|other: IVec3|
                other != pos ==> final(self).light_at(other) == old(self).light_at(other),
            forall|other: IVec3| final(self).blocks_at(other) == old(self).blocks_at(other),
    {
        broadcast use vstd::std_specs::hash::group_hash_axioms;
        let key = position_key(pos);
        self.light.remove(&key);
        assert forall|other: IVec3| #[trigger] self.light_positions().contains(other) == old(self).light_positions().remove(pos).contains(other) by {
            lemma_position_key_injective(other, pos);
        }
        assert(self.light_positions() =~= old(self).light_positions().remove(pos));
        assert forall|other: IVec3| other != pos implies #[trigger] self.light_at(other) == old(self).light_at(other) by {
            lemma_position_key_injective(other, pos);
        }
    }

    pub fn light(&self, pos: IVec3) -> (found: Option<Arc<SectionLight>>)
        ensures
            found is Some <==> self.light_positions().contains(pos),
            found matches Some(light) ==> *light == self.light_at(pos),
    {
        broadcast use vstd::std_specs::hash::group_hash_axioms;
        let key = position_key(pos);
        match self.light.get(&key) {
            Some(light) => Some(light.clone()),
            None => None,
        }
    }
}


impl WorldSections {
    /// Which slots have their bit in `known` and no section in `held`: the sections the JVM counts
    /// as sent that are not here.
    pub open spec fn missing_from(
        held: Set<IVec3>,
        target: IVec3,
        known: u32,
    ) -> spec_fn(int) -> bool {
        |i: int|
            has_bit(known, i) && !held.contains(spec_add(target, spec_neighbour_offset(i)))
    }

    /// Which of the sections the JVM counts as sent are not here, as `(blocks, light)` masks.
    ///
    /// Bit `i`, in the `sx + sy*3 + sz*9` order the payload uses, is the JVM's word that this side
    /// already has neighbour `i`; a bit that comes back set names a section that has to be sent
    /// again before the bake can run against it.
    pub fn missing(&self, target: IVec3, known_blocks: u32, known_light: u32) -> (masks: (u32, u32))
        requires
            has_neighbours(target),
        ensures
            masks.0 == mask_of(
                Self::missing_from(self.block_positions(), target, known_blocks),
                SECTIONS as nat,
            ),
            masks.1 == mask_of(
                Self::missing_from(self.light_positions(), target, known_light),
                SECTIONS as nat,
            ),
    {
        let ghost missing_blocks = Self::missing_from(self.block_positions(), target, known_blocks);
        let ghost missing_light = Self::missing_from(self.light_positions(), target, known_light);
        let mut blocks: u32 = 0;
        let mut light: u32 = 0;
        let mut index: usize = 0;
        while index < SECTIONS
            invariant
                index <= SECTIONS,
                has_neighbours(target),
                missing_blocks == Self::missing_from(self.block_positions(), target, known_blocks),
                missing_light == Self::missing_from(self.light_positions(), target, known_light),
                blocks == mask_of(missing_blocks, index as nat),
                light == mask_of(missing_light, index as nat),
            decreases SECTIONS - index,
        {
            let bit: u32 = 1u32 << (index as u32);
            let pos = add_offset(target, neighbour_offset(index));
            let i = index as u32;
            proof {
                lemma_bit_test(known_blocks, i);
                lemma_bit_test(known_light, i);
            }
            if known_blocks & bit != 0 && !self.holds_blocks(pos) {
                blocks = blocks | bit;
            }
            if known_light & bit != 0 && !self.holds_light(pos) {
                light = light | bit;
            }
            index = index + 1;
        }
        (blocks, light)
    }

    fn holds_blocks(&self, pos: IVec3) -> (held: bool)
        ensures
            held == self.block_positions().contains(pos),
    {
        broadcast use vstd::std_specs::hash::group_hash_axioms;
        let key = position_key(pos);
        self.blocks.contains_key(&key)
    }

    fn holds_light(&self, pos: IVec3) -> (held: bool)
        ensures
            held == self.light_positions().contains(pos),
    {
        broadcast use vstd::std_specs::hash::group_hash_axioms;
        let key = position_key(pos);
        self.light.contains_key(&key)
    }
}

proof fn lemma_bit_test(mask: u32, i: u32)
    by (bit_vector)
    requires
        i < 32,
    ensures
        (mask & (1u32 << i) != 0u32) == ((mask >> i) & 1u32 == 1u32),
{
}


/// The position a key stands for: the inverse of [`spec_position_key`].
pub open spec fn spec_key_position(key: u128) -> IVec3 {
    IVec3 {
        x: ((key % 0x1_0000_0000) - 0x8000_0000) as i32,
        y: ((key / 0x1_0000_0000) % 0x1_0000_0000 - 0x8000_0000) as i32,
        z: ((key / 0x1_0000_0000_0000_0000) % 0x1_0000_0000 - 0x8000_0000) as i32,
    }
}

proof fn lemma_split(a: int, b: int, c: int)
    by (nonlinear_arith)
    requires
        0 <= a < c,
        0 <= b,
    ensures
        (a + c * b) % c == a,
        (a + c * b) / c == b,
{
}

pub proof fn lemma_key_position(pos: IVec3)
    ensures
        spec_key_position(spec_position_key(pos)) == pos,
{
    let c: int = 0x1_0000_0000;
    let ax = pos.x + 0x8000_0000;
    let ay = pos.y + 0x8000_0000;
    let az = pos.z + 0x8000_0000;
    let rest = ay + c * az;
    let k = ax + c * rest;
    assert(k == ax + 0x1_0000_0000 * ay + 0x1_0000_0000_0000_0000 * az) by (nonlinear_arith)
        requires
            k == ax + c * rest,
            rest == ay + c * az,
            c == 0x1_0000_0000,
    ;
    lemma_split(ax, rest, c);
    lemma_split(ay, az, c);
    assert(k / 0x1_0000_0000_0000_0000 == az) by (nonlinear_arith)
        requires
            k / c == rest,
            rest / c == az,
            c == 0x1_0000_0000,
            k >= 0,
    {
        vstd::arithmetic::div_mod::lemma_div_denominator(k, c, c);
    }
    assert(az % c == az);
    assert(spec_position_key(pos) as int == k);
}

fn key_position(key: u128) -> (pos: IVec3)
    ensures
        pos == spec_key_position(key),
{
    let x = (key % 0x1_0000_0000) as i64 - 0x8000_0000;
    let y = ((key / 0x1_0000_0000) % 0x1_0000_0000) as i64 - 0x8000_0000;
    let z = ((key / 0x1_0000_0000_0000_0000) % 0x1_0000_0000) as i64 - 0x8000_0000;
    IVec3 { x: x as i32, y: y as i32, z: z as i32 }
}

/// Whether a section is further than [`TRIM_RADIUS`] chunks from `target`, on either horizontal
/// axis.
pub open spec fn spec_far(pos: IVec3, target: IVec3) -> bool {
    ||| pos.x - target.x > TRIM_RADIUS
    ||| target.x - pos.x > TRIM_RADIUS
    ||| pos.z - target.z > TRIM_RADIUS
    ||| target.z - pos.z > TRIM_RADIUS
}

fn far(pos: IVec3, target: IVec3) -> (result: bool)
    ensures
        result == spec_far(pos, target),
{
    let dx = pos.x as i64 - target.x as i64;
    let dz = pos.z as i64 - target.z as i64;
    dx > 48 || -dx > 48 || dz > 48 || -dz > 48
}

/// The keys of `map` whose positions are far from `target`.
fn far_keys<V>(map: &HashMap<u128, V>, target: IVec3) -> (keys: Vec<u128>)
    ensures
        forall|k: u128| #[trigger]
            map@.contains_key(k) && spec_far(spec_key_position(k), target) ==> keys@.contains(k),
        forall|i: int| 0 <= i < keys@.len() ==> spec_far(spec_key_position(#[trigger] keys@[i]), target),
{
    broadcast use vstd::std_specs::hash::group_hash_axioms;
    let mut keys: Vec<u128> = Vec::new();
    let ghost all = vstd::std_specs::hash::spec_keys_iter(map).remaining();
    for key in it: map.keys()
        invariant
            it.seq() == all,
            forall|i: int|
                0 <= i < it.index() && spec_far(spec_key_position(*it.seq()[i]), target)
                    ==> keys@.contains(*it.seq()[i]),
            forall|i: int| 0 <= i < keys@.len() ==> spec_far(spec_key_position(#[trigger] keys@[i]), target),
    {
        let k: u128 = *key;
        let ghost before = keys@;
        if far(key_position(k), target) {
            keys.push(k);
            assert(keys@[keys@.len() - 1] == k);
        }
        assert forall|i: int|
            0 <= i < it.index() + 1 && spec_far(spec_key_position(*it.seq()[i]), target)
                implies keys@.contains(*it.seq()[i]) by {
            if i < it.index() {
                let w = choose|w: int| 0 <= w < before.len() && before[w] == *it.seq()[i];
                assert(keys@[w] == before[w]);
            }
        }
    }
    assert forall|k: u128| #[trigger] map@.contains_key(k) && spec_far(spec_key_position(k), target)
        implies keys@.contains(k) by {
        assert(all.unref().to_set().contains(k));
        let i = choose|i: int| 0 <= i < all.len() && all.unref()[i] == k;
        assert(*all[i] == k);
    }
    keys
}


/// Removes every key of `keys` from `map`.
fn remove_keys<V>(map: &mut HashMap<u128, V>, keys: &Vec<u128>)
    ensures
        final(map)@ == old(map)@.remove_keys(keys@.to_set()),
{
    broadcast use vstd::std_specs::hash::group_hash_axioms;
    let mut i: usize = 0;
    while i < keys.len()
        invariant
            i <= keys@.len(),
            map@ == old(map)@.remove_keys(keys@.take(i as int).to_set()),
        decreases keys@.len() - i,
    {
        let key = keys[i];
        map.remove(&key);
        assert(keys@.take(i + 1).to_set() =~= keys@.take(i as int).to_set().insert(key)) by {
            assert(keys@.take(i + 1) =~= keys@.take(i as int).push(key));
            keys@.take(i as int).lemma_push_to_set_commute(key);
        }
        assert(map@ =~= old(map)@.remove_keys(keys@.take(i + 1).to_set()));
        i = i + 1;
    }
    assert(keys@.take(keys@.len() as int) =~= keys@);
}

/// Drops the far keys of `map`; the positions it keeps are exactly its near ones.
fn drop_far<V>(map: &mut HashMap<u128, V>, target: IVec3)
    ensures
        positions(final(map)@) == positions(old(map)@).filter(|pos: IVec3| !spec_far(pos, target)),
        forall|pos: IVec3|
            positions(final(map)@).contains(pos) ==> final(map)@[spec_position_key(pos)] == old(
                map,
            )@[spec_position_key(pos)],
        final(map)@.dom().subset_of(old(map)@.dom()),
{
    let keys = far_keys(map, target);
    remove_keys(map, &keys);
    assert forall|pos: IVec3|
        #[trigger] positions(map@).contains(pos) == positions(old(map)@).filter(
            |pos: IVec3| !spec_far(pos, target),
        ).contains(pos) by {
        lemma_key_position(pos);
        let k = spec_position_key(pos);
        if keys@.to_set().contains(k) {
            let i = choose|i: int| 0 <= i < keys@.len() && keys@[i] == k;
            assert(spec_far(spec_key_position(keys@[i]), target));
        }
    }
    assert(positions(map@) =~= positions(old(map)@).filter(|pos: IVec3| !spec_far(pos, target)));
}

/// What [`WorldSections::trim`] makes of `before`: when a trim is due, the sections far from
/// `target` are dropped and the rest kept as they were; otherwise nothing changes.
pub open spec fn trimmed_from(before: WorldSections, after: WorldSections, target: IVec3) -> bool {
    &&& !before.trim_due() ==> after == before
    &&& before.trim_due() ==> {
        &&& after.block_positions() == before.block_positions().filter(
            |pos: IVec3| !spec_far(pos, target),
        )
        &&& after.light_positions() == before.light_positions().filter(
            |pos: IVec3| !spec_far(pos, target),
        )
        &&& forall|pos: IVec3|
            after.block_positions().contains(pos) ==> after.blocks_at(pos) == before.blocks_at(pos)
        &&& forall|pos: IVec3|
            after.light_positions().contains(pos) ==> after.light_at(pos) == before.light_at(pos)
    }
}

/// Whether `applied` is `before` with the payload for the bake of `target` applied: each of the 27
/// slots changed as the payload says, every other section as it was.
pub open spec fn payload_applied(
    before: WorldSections,
    applied: WorldSections,
    target: IVec3,
    payload: &Payload,
) -> bool {
    &&& forall|i: int|
        0 <= i < SECTIONS ==> blocks_changed(
            before,
            applied,
            #[trigger] neighbour(target, i),
            block_change(payload, i),
        ) && light_changed(before, applied, neighbour(target, i), light_change(payload, i))
    &&& forall|pos: IVec3|
        !is_near(target, pos) ==> #[trigger] blocks_kept(before, applied, pos) && light_kept(
            before,
            applied,
            pos,
        )
}

impl WorldSections {
    /// How many sections have block data here.
    pub closed spec fn block_count(&self) -> nat {
        self.blocks@.len()
    }

    /// How many sections have light here.
    pub closed spec fn light_count(&self) -> nat {
        self.light@.len()
    }

    /// Whether the next [`WorldSections::trim`] scans: there are at least [`CACHE_SOFT_LIMIT`]
    /// sections, and [`TRIM_EVERY`] stores have happened since the last scan.
    pub closed spec fn trim_due(&self) -> bool {
        &&& (self.blocks@.len() >= CACHE_SOFT_LIMIT || self.light@.len() >= CACHE_SOFT_LIMIT)
        &&& self.tick - self.last_trim >= TRIM_EVERY
    }

    /// Drops the sections far from the one being baked, once there are enough of them to be worth
    /// the scan.
    pub fn trim(&mut self, target: IVec3)
        requires
            old(self).wf(),
        ensures
            final(self).wf(),
            trimmed_from(*old(self), *final(self), target),
    {
        broadcast use vstd::std_specs::hash::group_hash_axioms;
        if self.len() < CACHE_SOFT_LIMIT || self.tick - self.last_trim < TRIM_EVERY {
            return;
        }
        self.last_trim = self.tick;
        drop_far(&mut self.blocks, target);
        drop_far(&mut self.light, target);
    }

    /// How many sections are held: the larger of the two tables.
    pub fn len(&self) -> (count: usize)
        ensures
            count == if self.block_count() >= self.light_count() {
                self.block_count()
            } else {
                self.light_count()
            },
    {
        broadcast use vstd::std_specs::hash::group_hash_axioms;
        let blocks = self.blocks.len();
        let light = self.light.len();
        if blocks >= light {
            blocks
        } else {
            light
        }
    }

    pub fn is_empty(&self) -> (empty: bool)
        ensures
            empty == (self.block_count() == 0 && self.light_count() == 0),
    {
        broadcast use vstd::std_specs::hash::group_hash_axioms;
        self.blocks.is_empty() && self.light.is_empty()
    }
}


// ---------------------------------------------------------------------------------------------
// One bake's view of the world
// ---------------------------------------------------------------------------------------------

/// What a position holds, as far as the mesher is concerned.
#[derive(Clone, Copy, Debug, PartialEq, Eq, Structural)]
pub enum ChunkBlockState {
    Air,
    State(BlockstateKey),
}

/// The sky and block light at a position, each 0 to 15.
#[derive(Clone, Copy, Debug, PartialEq, Eq, Structural)]
pub struct LightLevel {
    pub sky: u8,
    pub block: u8,
}

impl LightLevel {
    pub fn from_sky_and_block(sky: u8, block: u8) -> (level: LightLevel)
        ensures
            level == (LightLevel { sky, block }),
    {
        LightLevel { sky, block }
    }
}

/// `floor(v / 16)`, which is what `v >> 4` computes for a two's complement `v`.
pub open spec fn section_of(v: i32) -> int {
    (v as int) / 16
}

/// The slot of the 27 that a section-relative position falls in, clamped to the 27.
pub open spec fn spec_slot(pos: IVec3) -> int {
    let raw = (section_of(pos.x) + 1) + 3 * (section_of(pos.y) + 1) + 9 * (section_of(pos.z) + 1);
    if raw < 0 {
        0
    } else if raw > 26 {
        26
    } else {
        raw
    }
}

fn floor_div_16(v: i32) -> (q: i64)
    ensures
        q == section_of(v),
        -0x800_0000 <= q < 0x800_0000,
{
    (v as i64 + 0x8_0000_0000) / 16 - 0x8000_0000
}

/// The low four bits of a coordinate: its place inside its section.
pub open spec fn local(v: i32) -> i32 {
    v & 15i32
}

proof fn lemma_local(v: i32)
    ensures
        0 <= local(v) < 16,
{
    assert(0 <= (v & 15i32) < 16) by (bit_vector);
}

/// The byte and shift of a position's nibble in a light layer: `(y << 8) | (z << 4) | x`, two
/// nibbles a byte, low nibble first.
pub open spec fn nibble_index(pos: IVec3) -> int {
    position_index(local(pos.x) as int, local(pos.y) as int, local(pos.z) as int) / 2
}

pub open spec fn nibble_shift(pos: IVec3) -> u8 {
    ((position_index(local(pos.x) as int, local(pos.y) as int, local(pos.z) as int) % 2) * 4) as u8
}

pub open spec fn nibble(layer: Seq<u8>, pos: IVec3) -> u8 {
    (layer[nibble_index(pos)] >> nibble_shift(pos)) & 15u8
}

/// The block and light of the 27 sections around one bake, resolved once, before it is queued.
pub struct CachedBlockstateProvider {
    pub blocks: Vec<Option<Arc<SectionBlocks>>>,
    pub light: Vec<Option<Arc<SectionLight>>>,
    pub air: BlockstateKey,
}

impl CachedBlockstateProvider {
    /// 27 slots of each, and every light layer a full one.
    pub open spec fn wf(&self) -> bool {
        &&& self.blocks@.len() == SECTIONS
        &&& self.light@.len() == SECTIONS
        &&& forall|i: int|
            0 <= i < SECTIONS ==> (#[trigger] self.light@[i] matches Some(l) ==> l.block@.len()
                == LIGHT_BYTES && l.sky@.len() == LIGHT_BYTES)
    }

    /// The slot of the 27 that a *section-relative* position falls in.
    ///
    /// The baker works in section-local coordinates and reaches one block outside the middle
    /// section, so `-1` is the neighbour below and `16` the one above.
    pub fn slot(pos: IVec3) -> (slot: usize)
        ensures
            slot == spec_slot(pos),
    {
        let raw = (floor_div_16(pos.x) + 1) + 3 * (floor_div_16(pos.y) + 1) + 9 * (floor_div_16(
            pos.z,
        ) + 1);
        if raw < 0 {
            0
        } else if raw > 26 {
            26
        } else {
            raw as usize
        }
    }

    /// What the world holds at a position.
    pub open spec fn spec_state(&self, pos: IVec3) -> ChunkBlockState {
        match self.blocks@[spec_slot(pos)] {
            None => ChunkBlockState::Air,
            Some(blocks) => match blocks.spec_key(
                position_index(local(pos.x) as int, local(pos.y) as int, local(pos.z) as int),
            ) {
                None => ChunkBlockState::Air,
                Some(key) => if key == self.air {
                    ChunkBlockState::Air
                } else {
                    ChunkBlockState::State(key)
                },
            },
        }
    }

    pub fn get_state(&self, pos: IVec3) -> (state: ChunkBlockState)
        requires
            self.wf(),
        ensures
            state == self.spec_state(pos),
    {
        proof {
            lemma_local(pos.x);
            lemma_local(pos.y);
            lemma_local(pos.z);
        }
        let slot = Self::slot(pos);
        match &self.blocks[slot] {
            None => ChunkBlockState::Air,
            Some(blocks) => match blocks.key(pos.x & 15, pos.y & 15, pos.z & 15) {
                None => ChunkBlockState::Air,
                Some(key) => if key.packed == self.air.packed {
                    ChunkBlockState::Air
                } else {
                    ChunkBlockState::State(key)
                },
            },
        }
    }

    /// The light at a position, or darkness where the section has no light.
    pub open spec fn spec_light_level(&self, pos: IVec3) -> LightLevel {
        match self.light@[spec_slot(pos)] {
            None => LightLevel { sky: 0, block: 0 },
            Some(light) => LightLevel {
                sky: nibble(light.sky@, pos),
                block: nibble(light.block@, pos),
            },
        }
    }

    pub fn get_light_level(&self, pos: IVec3) -> (level: LightLevel)
        requires
            self.wf(),
        ensures
            level == self.spec_light_level(pos),
    {
        proof {
            lemma_local(pos.x);
            lemma_local(pos.y);
            lemma_local(pos.z);
        }
        let slot = Self::slot(pos);
        match &self.light[slot] {
            None => LightLevel::from_sky_and_block(0, 0),
            Some(light) => {
                let packed: usize = ((pos.y & 15) as usize) * 256 + ((pos.z & 15) as usize) * 16 + ((
                pos.x & 15) as usize);
                let shift: u8 = ((packed % 2) * 4) as u8;
                let index = packed / 2;
                let sky = (light.sky[index] >> shift) & 15u8;
                let block = (light.block[index] >> shift) & 15u8;
                LightLevel::from_sky_and_block(sky, block)
            },
        }
    }

    /// Whether the section at a *section* offset from the middle one is empty: every section
    /// outside the 27 is, and so is a slot the payload carried no block data for.
    pub fn is_section_empty(&self, rel_pos: IVec3) -> (empty: bool)
        requires
            self.wf(),
        ensures
            empty == (rel_pos.x < -1 || rel_pos.x > 1 || rel_pos.y < -1 || rel_pos.y > 1
                || rel_pos.z < -1 || rel_pos.z > 1 || self.blocks@[(rel_pos.x + 1) + 3 * (rel_pos.y
                + 1) + 9 * (rel_pos.z + 1)] is None),
    {
        if rel_pos.x < -1 || rel_pos.x > 1 || rel_pos.y < -1 || rel_pos.y > 1 || rel_pos.z < -1
            || rel_pos.z > 1 {
            return true;
        }
        let slot = Self::slot(IVec3 { x: rel_pos.x * 16, y: rel_pos.y * 16, z: rel_pos.z * 16 });
        self.blocks[slot].is_none()
    }

    /// The tint a block is drawn with here: none, since biome colours come from the JVM.
    pub fn get_block_color(&self, _pos: IVec3, _tint_index: i32) -> (color: u32)
        ensures
            color == 0xffff_ffff,
    {
        0xffff_ffff
    }
}

/// The slot a neighbour's section falls in is that neighbour's index: the order the payload uses and
/// the order the baker looks sections up in are the same.
pub proof fn lemma_slot_of_neighbour(index: int)
    requires
        0 <= index < SECTIONS,
    ensures
        ({
            let offset = spec_neighbour_offset(index);
            spec_slot(IVec3 { x: (offset.x * 16) as i32, y: (offset.y * 16) as i32, z: (offset.z
                * 16) as i32 }) == index
        }),
{
}

// ---------------------------------------------------------------------------------------------
// Receiving a payload
// ---------------------------------------------------------------------------------------------

/// Neighbour `i` of `target`, in the payload's order.
pub open spec fn neighbour(target: IVec3, i: int) -> IVec3 {
    spec_add(target, spec_neighbour_offset(i))
}

/// Whether `pos` is one of the 27 sections around `target`.
pub open spec fn is_near(target: IVec3, pos: IVec3) -> bool {
    &&& -1 <= pos.x - target.x <= 1
    &&& -1 <= pos.y - target.y <= 1
    &&& -1 <= pos.z - target.z <= 1
}

proof fn lemma_neighbour(target: IVec3, i: int)
    requires
        has_neighbours(target),
        0 <= i < SECTIONS,
    ensures
        adds_without_overflow(target, spec_neighbour_offset(i)),
        is_near(target, neighbour(target, i)),
        !spec_far(neighbour(target, i), target),
{
}

proof fn lemma_neighbours_distinct(target: IVec3, i: int, j: int)
    requires
        has_neighbours(target),
        0 <= i < SECTIONS,
        0 <= j < SECTIONS,
        i != j,
    ensures
        neighbour(target, i) != neighbour(target, j),
{
}

/// What a payload does to one slot: forget what is there, replace it, or leave it.
pub enum SlotChange<T> {
    Forget,
    Replace(T),
    Keep,
}

/// What the payload does to the block data of slot `i`: a slot it says to forget is forgotten,
/// else a slot it carries is replaced.
pub open spec fn block_change(payload: &Payload, i: int) -> SlotChange<SectionBlocks> {
    if has_bit(payload.absent, i) {
        SlotChange::Forget
    } else {
        match payload.blocks@[i] {
            Some(b) => SlotChange::Replace(b),
            None => SlotChange::Keep,
        }
    }
}

/// The last light record for slot `i` in `light`.
pub open spec fn last_light(light: Seq<(usize, SectionLight)>, i: int) -> Option<SectionLight>
    decreases light.len(),
{
    if light.len() == 0 {
        None
    } else if light.last().0 == i {
        Some(light.last().1)
    } else {
        last_light(light.drop_last(), i)
    }
}

/// What the payload does to the light of slot `i`: a slot it says to forget is forgotten, else the
/// last record for it replaces what is there.
pub open spec fn light_change(payload: &Payload, i: int) -> SlotChange<SectionLight> {
    if has_bit(payload.light_absent, i) {
        SlotChange::Forget
    } else {
        match last_light(payload.light@, i) {
            Some(l) => SlotChange::Replace(l),
            None => SlotChange::Keep,
        }
    }
}

/// The slots that light records name, as a mask.
pub open spec fn listed_mask(light: Seq<(usize, SectionLight)>) -> u32
    decreases light.len(),
{
    if light.len() == 0 {
        0
    } else {
        listed_mask(light.drop_last()) | (1u32 << (light.last().0 as u32))
    }
}

/// Whether the block data at `pos` in `after` is what `change` makes of `before`'s.
pub open spec fn blocks_changed(
    before: WorldSections,
    after: WorldSections,
    pos: IVec3,
    change: SlotChange<SectionBlocks>,
) -> bool {
    match change {
        SlotChange::Forget => !after.block_positions().contains(pos),
        SlotChange::Replace(b) => after.block_positions().contains(pos) && after.blocks_at(pos)
            == b,
        SlotChange::Keep => blocks_kept(before, after, pos),
    }
}

/// Whether the light at `pos` in `after` is what `change` makes of `before`'s.
pub open spec fn light_changed(
    before: WorldSections,
    after: WorldSections,
    pos: IVec3,
    change: SlotChange<SectionLight>,
) -> bool {
    match change {
        SlotChange::Forget => !after.light_positions().contains(pos),
        SlotChange::Replace(l) => after.light_positions().contains(pos) && after.light_at(pos) == l,
        SlotChange::Keep => light_kept(before, after, pos),
    }
}

/// Whether the block data at `pos` is the same in both.
pub open spec fn blocks_kept(before: WorldSections, after: WorldSections, pos: IVec3) -> bool {
    &&& after.block_positions().contains(pos) == before.block_positions().contains(pos)
    &&& before.block_positions().contains(pos) ==> after.blocks_at(pos) == before.blocks_at(pos)
}

/// Whether the light at `pos` is the same in both.
pub open spec fn light_kept(before: WorldSections, after: WorldSections, pos: IVec3) -> bool {
    &&& after.light_positions().contains(pos) == before.light_positions().contains(pos)
    &&& before.light_positions().contains(pos) ==> after.light_at(pos) == before.light_at(pos)
}

/// Whether `after` holds, away from the 27, what `before` held, less the far sections where
/// `trimmed` is set.
pub open spec fn rest_kept(before: WorldSections, after: WorldSections, target: IVec3, trimmed: bool) -> bool {
    forall|pos: IVec3|
        !is_near(target, pos) ==> {
            &&& #[trigger] after.block_positions().contains(pos) == (
            before.block_positions().contains(pos) && !(trimmed && spec_far(pos, target)))
            &&& after.light_positions().contains(pos) == (before.light_positions().contains(pos)
                && !(trimmed && spec_far(pos, target)))
            &&& after.block_positions().contains(pos) ==> after.blocks_at(pos)
                == before.blocks_at(pos)
            &&& after.light_positions().contains(pos) ==> after.light_at(pos) == before.light_at(
                pos,
            )
        }
}

impl WorldSections {
    /// Every light layer held is a full one.
    pub open spec fn light_full(&self) -> bool {
        forall|pos: IVec3|
            #[trigger] self.light_positions().contains(pos) ==> self.light_at(pos).block@.len()
                == LIGHT_BYTES && self.light_at(pos).sky@.len() == LIGHT_BYTES
    }
}

/// What became of a payload.
pub enum Received {
    /// Sections the JVM counts as sent are not here, as `(blocks, light)` masks; the JVM sends the
    /// neighbourhood again, and nothing is baked.
    Resync { missing_blocks: u32, missing_light: u32 },
    /// Every section the bake reads is resolved.
    Bake(CachedBlockstateProvider),
}

/// The sections the JVM counts as sent that `world` does not have, as `(blocks, light)` masks:
/// what it knew of before, less what this payload carried.
pub open spec fn missing_masks(world: WorldSections, target: IVec3, payload: &Payload) -> (u32, u32) {
    (
        mask_of(
            WorldSections::missing_from(
                world.block_positions(),
                target,
                payload.known_blocks & !payload.present,
            ),
            SECTIONS as nat,
        ),
        mask_of(
            WorldSections::missing_from(
                world.light_positions(),
                target,
                payload.known_light & !listed_mask(payload.light@),
            ),
            SECTIONS as nat,
        ),
    )
}

proof fn lemma_last_light_step(light: Seq<(usize, SectionLight)>, k: int, i: int)
    requires
        0 <= k < light.len(),
    ensures
        last_light(light.take(k + 1), i) == if light[k].0 == i {
            Some(light[k].1)
        } else {
            last_light(light.take(k), i)
        },
{
    assert(light.take(k + 1).drop_last() =~= light.take(k));
}

proof fn lemma_listed_mask_step(light: Seq<(usize, SectionLight)>, k: int)
    requires
        0 <= k < light.len(),
    ensures
        listed_mask(light.take(k + 1)) == listed_mask(light.take(k)) | (1u32 << (light[k].0 as u32)),
{
    assert(light.take(k + 1).drop_last() =~= light.take(k));
}

impl WorldSections {
    /// Takes in one payload for the bake of `target`, and says whether the bake can run.
    ///
    /// The payload is applied first, so a bake never sees a half-applied neighbourhood: a slot it
    /// says to forget is forgotten, a slot it carries replaces what was held, light records are
    /// stored in order and the light it says to forget is dropped last. Then, if any section the
    /// JVM counts as already sent - other than the ones this payload carried - is not here, the
    /// answer is a resync and nothing else changes. Otherwise all 27 sections are resolved for the
    /// bake, and the cache is trimmed around `target`, which never drops one of the 27.
    pub fn receive(&mut self, target: IVec3, payload: Payload, air: BlockstateKey) -> (received:
        Received)
        requires
            old(self).wf(),
            old(self).light_full(),
            has_neighbours(target),
            payload.wf(),
        ensures
            final(self).wf(),
            final(self).light_full(),
            forall|i: int|
                0 <= i < SECTIONS ==> blocks_changed(
                    *old(self),
                    *final(self),
                    #[trigger] neighbour(target, i),
                    block_change(&payload, i),
                ),
            forall|i: int|
                0 <= i < SECTIONS ==> light_changed(
                    *old(self),
                    *final(self),
                    #[trigger] neighbour(target, i),
                    light_change(&payload, i),
                ),
            match received {
                Received::Resync { missing_blocks, missing_light } => {
                    &&& (missing_blocks, missing_light) == missing_masks(*final(self), target, &payload)
                    &&& missing_blocks != 0 || missing_light != 0
                    &&& rest_kept(*old(self), *final(self), target, false)
                },
                Received::Bake(provider) => {
                    &&& missing_masks(*final(self), target, &payload) == (0u32, 0u32)
                    &&& provider.wf()
                    &&& provider.air == air
                    &&& forall|i: int|
                        0 <= i < SECTIONS ==> (#[trigger] provider.blocks@[i] is Some
                            <==> final(self).block_positions().contains(neighbour(target, i)))
                    &&& forall|i: int|
                        0 <= i < SECTIONS ==> (#[trigger] provider.blocks@[i] matches Some(b) ==> *b
                            == final(self).blocks_at(neighbour(target, i)))
                    &&& forall|i: int|
                        0 <= i < SECTIONS ==> (#[trigger] provider.light@[i] is Some
                            <==> final(self).light_positions().contains(neighbour(target, i)))
                    &&& forall|i: int|
                        0 <= i < SECTIONS ==> (#[trigger] provider.light@[i] matches Some(l) ==> *l
                            == final(self).light_at(neighbour(target, i)))
                    &&& exists|applied: WorldSections| {
                        &&& applied.wf()
                        &&& #[trigger] payload_applied(*old(self), applied, target, &payload)
                        &&& trimmed_from(applied, *final(self), target)
                        &&& rest_kept(*old(self), *final(self), target, applied.trim_due())
                    }
                },
            },
    {
        let ghost start = *self;
        let ghost orig = payload;
        let mut payload = payload;
        let mut listed: u32 = 0;
        let mut k: usize = 0;
        while k < payload.light.len()
            invariant
                payload == orig,
                k <= payload.light@.len(),
                lights_wf(payload.light@),
                listed == listed_mask(payload.light@.take(k as int)),
            decreases payload.light@.len() - k,
        {
            proof {
                lemma_listed_mask_step(payload.light@, k as int);
            }
            let index = payload.light[k].0;
            listed = listed | (1u32 << (index as u32));
            k = k + 1;
        }
        assert(payload.light@.take(payload.light@.len() as int) =~= payload.light@);
        let known_blocks = payload.known_blocks & !payload.present;
        let known_light = payload.known_light & !listed;

        // Block data.
        let mut i: usize = 0;
        while i < SECTIONS
            invariant
                self.wf(),
                self.light_full(),
                has_neighbours(target),
                i <= SECTIONS,
                payload.blocks@.len() == SECTIONS,
                orig.blocks@.len() == SECTIONS,
                payload.absent == orig.absent,
                payload.light@ == orig.light@,
                payload.light_absent == orig.light_absent,
                forall|j: int| i <= j < SECTIONS ==> payload.blocks@[j] == orig.blocks@[j],
                forall|j: int|
                    0 <= j < i ==> blocks_changed(
                        start,
                        *self,
                        #[trigger] neighbour(target, j),
                        block_change(&orig, j),
                    ),
                forall|j: int| i <= j < SECTIONS ==> blocks_kept(start, *self, #[trigger] neighbour(target, j)),
                forall|pos: IVec3| !is_near(target, pos) ==> #[trigger] blocks_kept(start, *self, pos),
                self.light_positions() == start.light_positions(),
                forall|pos: IVec3| #[trigger] self.light_at(pos) == start.light_at(pos),
            decreases SECTIONS - i,
        {
            proof {
                lemma_neighbour(target, i as int);
            }
            let pos = add_offset(target, neighbour_offset(i));
            let ghost before = *self;
            let bit: u32 = 1u32 << (i as u32);
            proof {
                lemma_bit_test(payload.absent, i as u32);
            }
            if payload.absent & bit != 0 {
                self.remove_blocks(pos);
            } else {
                let mut slot: Option<SectionBlocks> = None;
                std::mem::swap(&mut slot, &mut payload.blocks[i]);
                match slot {
                    Some(b) => {
                        self.set_blocks(pos, Arc::new(b));
                    },
                    None => {},
                }
            }
            proof {
                assert forall|j: int| 0 <= j < SECTIONS && j != i implies #[trigger] neighbour(target, j)
                    != pos by {
                    lemma_neighbours_distinct(target, i as int, j);
                }
                assert forall|pos2: IVec3| !is_near(target, pos2) implies #[trigger] blocks_kept(
                    start,
                    *self,
                    pos2,
                ) by {
                    assert(blocks_kept(start, before, pos2));
                }
                assert forall|j: int|
                    0 <= j < i + 1 implies blocks_changed(
                    start,
                    *self,
                    #[trigger] neighbour(target, j),
                    block_change(&orig, j),
                ) by {
                    if j < i {
                        assert(blocks_changed(start, before, neighbour(target, j), block_change(&orig, j)));
                    } else {
                        assert(blocks_kept(start, before, neighbour(target, j)));
                    }
                }
                assert forall|j: int| i + 1 <= j < SECTIONS implies blocks_kept(
                    start,
                    *self,
                    #[trigger] neighbour(target, j),
                ) by {
                    assert(blocks_kept(start, before, neighbour(target, j)));
                }
                assert forall|pos2: IVec3| self.light_positions().contains(pos2) implies self.light_at(
                    pos2,
                ).block@.len() == LIGHT_BYTES && self.light_at(pos2).sky@.len() == LIGHT_BYTES by {
                    assert(before.light_positions().contains(pos2));
                }
            }
            i = i + 1;
        }

        // Light records, in order.
        let mut records: Vec<(usize, SectionLight)> = Vec::new();
        std::mem::swap(&mut records, &mut payload.light);
        let n = records.len();
        let mut k: usize = 0;
        let ghost mid = *self;
        while k < n
            invariant
                self.wf(),
                self.light_full(),
                has_neighbours(target),
                n == orig.light@.len(),
                k <= n,
                lights_wf(orig.light@),
                payload.light_absent == orig.light_absent,
                records@ == orig.light@.skip(k as int),
                self.block_positions() == mid.block_positions(),
                forall|pos: IVec3| #[trigger] self.blocks_at(pos) == mid.blocks_at(pos),
                forall|j: int|
                    0 <= j < SECTIONS ==> (match last_light(orig.light@.take(k as int), j) {
                        Some(l) => self.light_positions().contains(#[trigger] neighbour(target, j))
                            && self.light_at(neighbour(target, j)) == l,
                        None => light_kept(start, *self, neighbour(target, j)),
                    }),
                forall|pos: IVec3| !is_near(target, pos) ==> #[trigger] light_kept(start, *self, pos),
                mid.light_positions() == start.light_positions(),
                forall|pos: IVec3| #[trigger] mid.light_at(pos) == start.light_at(pos),
            decreases n - k,
        {
            let ghost before = *self;
            let (index, light) = records.remove(0);
            assert((index, light) == orig.light@[k as int]);
            assert(records@ =~= orig.light@.skip(k as int + 1));
            proof {
                lemma_neighbour(target, index as int);
            }
            let pos = add_offset(target, neighbour_offset(index));
            self.set_light(pos, Arc::new(light));
            proof {
                assert forall|j: int|
                    0 <= j < SECTIONS implies (match last_light(orig.light@.take(k + 1), j) {
                    Some(l) => self.light_positions().contains(#[trigger] neighbour(target, j))
                        && self.light_at(neighbour(target, j)) == l,
                    None => light_kept(start, *self, neighbour(target, j)),
                }) by {
                    lemma_last_light_step(orig.light@, k as int, j);
                    if j != index {
                        lemma_neighbours_distinct(target, index as int, j);
                    }
                }
                assert forall|pos2: IVec3| !is_near(target, pos2) implies #[trigger] light_kept(
                    start,
                    *self,
                    pos2,
                ) by {
                    assert(light_kept(start, before, pos2));
                }
                assert forall|pos2: IVec3| self.light_positions().contains(pos2) implies self.light_at(
                    pos2,
                ).block@.len() == LIGHT_BYTES && self.light_at(pos2).sky@.len() == LIGHT_BYTES by {
                    if pos2 != pos {
                        assert(before.light_positions().contains(pos2));
                    }
                }
            }
            k = k + 1;
        }
        assert(orig.light@.take(n as int) =~= orig.light@);

        // The light the payload says to forget goes last.
        let mut i: usize = 0;
        let ghost listed_world = *self;
        while i < SECTIONS
            invariant
                self.wf(),
                self.light_full(),
                has_neighbours(target),
                i <= SECTIONS,
                payload.light_absent == orig.light_absent,
                self.block_positions() == mid.block_positions(),
                forall|pos: IVec3| #[trigger] self.blocks_at(pos) == mid.blocks_at(pos),
                forall|j: int|
                    0 <= j < i ==> light_changed(
                        start,
                        *self,
                        #[trigger] neighbour(target, j),
                        light_change(&orig, j),
                    ),
                forall|j: int|
                    i <= j < SECTIONS ==> (match last_light(orig.light@, j) {
                        Some(l) => self.light_positions().contains(#[trigger] neighbour(target, j))
                            && self.light_at(neighbour(target, j)) == l,
                        None => light_kept(start, *self, neighbour(target, j)),
                    }),
                forall|pos: IVec3| !is_near(target, pos) ==> #[trigger] light_kept(start, *self, pos),
            decreases SECTIONS - i,
        {
            proof {
                lemma_neighbour(target, i as int);
            }
            let pos = add_offset(target, neighbour_offset(i));
            let ghost before = *self;
            let bit: u32 = 1u32 << (i as u32);
            proof {
                lemma_bit_test(payload.light_absent, i as u32);
            }
            if payload.light_absent & bit != 0 {
                self.remove_light(pos);
            }
            proof {
                assert forall|j: int| 0 <= j < SECTIONS && j != i implies #[trigger] neighbour(target, j)
                    != pos by {
                    lemma_neighbours_distinct(target, i as int, j);
                }
                assert forall|pos2: IVec3| !is_near(target, pos2) implies #[trigger] light_kept(
                    start,
                    *self,
                    pos2,
                ) by {
                    assert(light_kept(start, before, pos2));
                }
                assert forall|j: int|
                    0 <= j < i + 1 implies light_changed(
                    start,
                    *self,
                    #[trigger] neighbour(target, j),
                    light_change(&orig, j),
                ) by {
                    if j < i {
                        assert(light_changed(start, before, neighbour(target, j), light_change(&orig, j)));
                    }
                }
                assert forall|pos2: IVec3| self.light_positions().contains(pos2) implies self.light_at(
                    pos2,
                ).block@.len() == LIGHT_BYTES && self.light_at(pos2).sky@.len() == LIGHT_BYTES by {
                    assert(before.light_positions().contains(pos2));
                }
            }
            i = i + 1;
        }
        proof {
            assert forall|j: int| 0 <= j < SECTIONS implies blocks_changed(
                start,
                *self,
                #[trigger] neighbour(target, j),
                block_change(&orig, j),
            ) by {
                assert(blocks_changed(start, mid, neighbour(target, j), block_change(&orig, j)));
            }
        }

        let (missing_blocks, missing_light) = self.missing(target, known_blocks, known_light);
        if missing_blocks != 0 || missing_light != 0 {
            proof {
                assert forall|pos: IVec3| !is_near(target, pos) implies {
                    &&& #[trigger] self.block_positions().contains(pos) == (
                    start.block_positions().contains(pos) && !(false && spec_far(pos, target)))
                    &&& self.light_positions().contains(pos) == (start.light_positions().contains(pos)
                        && !(false && spec_far(pos, target)))
                    &&& self.block_positions().contains(pos) ==> self.blocks_at(pos)
                        == start.blocks_at(pos)
                    &&& self.light_positions().contains(pos) ==> self.light_at(pos) == start.light_at(
                        pos,
                    )
                } by {
                    assert(blocks_kept(start, mid, pos));
                    assert(light_kept(start, *self, pos));
                }
            }
            return Received::Resync { missing_blocks, missing_light };
        }

        let mut blocks: Vec<Option<Arc<SectionBlocks>>> = Vec::new();
        let mut light: Vec<Option<Arc<SectionLight>>> = Vec::new();
        let mut i: usize = 0;
        while i < SECTIONS
            invariant
                has_neighbours(target),
                self.light_full(),
                i <= SECTIONS,
                blocks@.len() == i,
                light@.len() == i,
                forall|j: int|
                    0 <= j < i ==> (#[trigger] blocks@[j] is Some
                        <==> self.block_positions().contains(neighbour(target, j))),
                forall|j: int|
                    0 <= j < i ==> (#[trigger] blocks@[j] matches Some(b) ==> *b == self.blocks_at(
                        neighbour(target, j),
                    )),
                forall|j: int|
                    0 <= j < i ==> (#[trigger] light@[j] is Some
                        <==> self.light_positions().contains(neighbour(target, j))),
                forall|j: int|
                    0 <= j < i ==> (#[trigger] light@[j] matches Some(l) ==> *l == self.light_at(
                        neighbour(target, j),
                    )),
            decreases SECTIONS - i,
        {
            proof {
                lemma_neighbour(target, i as int);
            }
            let pos = add_offset(target, neighbour_offset(i));
            blocks.push(self.blocks(pos));
            light.push(self.light(pos));
            i = i + 1;
        }
        let provider = CachedBlockstateProvider { blocks, light, air };
        assert(provider.wf()) by {
            assert forall|j: int| 0 <= j < SECTIONS implies (#[trigger] provider.light@[j] matches Some(l)
                ==> l.block@.len() == LIGHT_BYTES && l.sky@.len() == LIGHT_BYTES) by {
                if provider.light@[j] is Some {
                    assert(self.light_positions().contains(neighbour(target, j)));
                }
            }
        }
        let ghost applied = *self;
        assert(missing_masks(applied, target, &orig) == (0u32, 0u32));
        self.trim(target);
        proof {
            let trimmed = applied.trim_due();
            assert(payload_applied(start, applied, target, &orig)) by {
                assert forall|j: int| 0 <= j < SECTIONS implies blocks_changed(
                    start,
                    applied,
                    #[trigger] neighbour(target, j),
                    block_change(&orig, j),
                ) && light_changed(start, applied, neighbour(target, j), light_change(&orig, j)) by {
                    lemma_neighbour(target, j);
                }
                assert forall|pos: IVec3| !is_near(target, pos) implies #[trigger] blocks_kept(
                    start,
                    applied,
                    pos,
                ) && light_kept(start, applied, pos) by {
                    assert(blocks_kept(start, mid, pos));
                }
            }
            assert forall|pos: IVec3| is_near(target, pos) implies blocks_kept(applied, *self, pos)
                && light_kept(applied, *self, pos) by {
                assert(!spec_far(pos, target));
            }
            assert forall|j: int| 0 <= j < SECTIONS implies blocks_changed(
                start,
                *self,
                #[trigger] neighbour(target, j),
                block_change(&orig, j),
            ) by {
                lemma_neighbour(target, j);
                assert(blocks_changed(start, applied, neighbour(target, j), block_change(&orig, j)));
                assert(blocks_kept(applied, *self, neighbour(target, j)));
            }
            assert forall|j: int| 0 <= j < SECTIONS implies light_changed(
                start,
                *self,
                #[trigger] neighbour(target, j),
                light_change(&orig, j),
            ) by {
                lemma_neighbour(target, j);
                assert(light_changed(start, applied, neighbour(target, j), light_change(&orig, j)));
                assert(light_kept(applied, *self, neighbour(target, j)));
            }
            assert(rest_kept(start, *self, target, trimmed)) by {
                assert forall|pos: IVec3| !is_near(target, pos) implies {
                    &&& #[trigger] self.block_positions().contains(pos) == (
                    start.block_positions().contains(pos) && !(trimmed && spec_far(pos, target)))
                    &&& self.light_positions().contains(pos) == (start.light_positions().contains(pos)
                        && !(trimmed && spec_far(pos, target)))
                    &&& self.block_positions().contains(pos) ==> self.blocks_at(pos)
                        == start.blocks_at(pos)
                    &&& self.light_positions().contains(pos) ==> self.light_at(pos) == start.light_at(
                        pos,
                    )
                } by {
                    assert(blocks_kept(start, mid, pos));
                    assert(blocks_kept(start, applied, pos));
                    assert(light_kept(start, applied, pos));
                }
            }
            assert forall|j: int| 0 <= j < SECTIONS implies (#[trigger] provider.blocks@[j] is Some
                <==> self.block_positions().contains(neighbour(target, j))) by {
                lemma_neighbour(target, j);
                assert(blocks_kept(applied, *self, neighbour(target, j)));
            }
            assert forall|j: int| 0 <= j < SECTIONS implies (#[trigger] provider.blocks@[j] matches Some(b)
                ==> *b == self.blocks_at(neighbour(target, j))) by {
                lemma_neighbour(target, j);
                assert(blocks_kept(applied, *self, neighbour(target, j)));
            }
            assert forall|j: int| 0 <= j < SECTIONS implies (#[trigger] provider.light@[j] is Some
                <==> self.light_positions().contains(neighbour(target, j))) by {
                lemma_neighbour(target, j);
                assert(light_kept(applied, *self, neighbour(target, j)));
            }
            assert forall|j: int| 0 <= j < SECTIONS implies (#[trigger] provider.light@[j] matches Some(l)
                ==> *l == self.light_at(neighbour(target, j))) by {
                lemma_neighbour(target, j);
                assert(light_kept(applied, *self, neighbour(target, j)));
            }
            assert forall|pos: IVec3| self.light_positions().contains(pos) implies self.light_at(
                pos,
            ).block@.len() == LIGHT_BYTES && self.light_at(pos).sky@.len() == LIGHT_BYTES by {
                assert(applied.light_positions().contains(pos));
            }
            assert(missing_masks(*self, target, &orig) == (0u32, 0u32)) by {
                lemma_missing_masks_near(applied, *self, target, &orig);
            }
        }
        Received::Bake(provider)
    }
}

/// The missing masks only look at the 27.
proof fn lemma_missing_masks_near(a: WorldSections, b: WorldSections, target: IVec3, payload: &Payload)
    requires
        has_neighbours(target),
        forall|pos: IVec3|
            is_near(target, pos) ==> #[trigger] blocks_kept(a, b, pos) && light_kept(a, b, pos),
    ensures
        missing_masks(a, target, payload) == missing_masks(b, target, payload),
{
    let kb = payload.known_blocks & !payload.present;
    let kl = payload.known_light & !listed_mask(payload.light@);
    let ma = WorldSections::missing_from(a.block_positions(), target, kb);
    let mb = WorldSections::missing_from(b.block_positions(), target, kb);
    let la = WorldSections::missing_from(a.light_positions(), target, kl);
    let lb = WorldSections::missing_from(b.light_positions(), target, kl);
    assert forall|i: int| 0 <= i < SECTIONS implies #[trigger] ma(i) == mb(i) by {
        lemma_neighbour(target, i);
        assert(blocks_kept(a, b, neighbour(target, i)));
    }
    assert forall|i: int| 0 <= i < SECTIONS implies #[trigger] la(i) == lb(i) by {
        lemma_neighbour(target, i);
        assert(blocks_kept(a, b, neighbour(target, i)));
    }
    lemma_mask_of_same(ma, mb, SECTIONS as nat);
    lemma_mask_of_same(la, lb, SECTIONS as nat);
}

proof fn lemma_mask_of_same(m1: spec_fn(int) -> bool, m2: spec_fn(int) -> bool, n: nat)
    requires
        forall|i: int| 0 <= i < n ==> #[trigger] m1(i) == m2(i),
    ensures
        mask_of(m1, n) == mask_of(m2, n),
    decreases n,
{
    if n > 0 {
        lemma_mask_of_same(m1, m2, (n - 1) as nat);
    }
}

} // verus!
