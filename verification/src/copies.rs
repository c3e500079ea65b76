//! The arithmetic of copies between buffers and textures: row padding, aligned readback windows,
//! and which rows of an upload can be copied.
//!
//! wgpu wants a texture copy's rows to be a multiple of 256 bytes apart and a buffer copy's ends to
//! be multiples of 4, and answers anything else with a validation error that ends the process;
//! Minecraft asks for tightly packed rows and exact byte ranges. These functions decide how the two
//! meet; the copies themselves are recorded by the caller.

use vstd::prelude::*;

verus! {

/// The distance wgpu wants between the rows of a texture copy, in bytes.
pub const COPY_BYTES_PER_ROW_ALIGNMENT: u32 = 256;

/// What both ends of a buffer copy must be a multiple of, in bytes.
pub const COPY_BUFFER_ALIGNMENT: u64 = 4;

/// The largest width or height a texture dump accepts.
pub const DUMP_SANITY_LIMIT: u32 = 65536;

/// `n` rounded up to a multiple of `a`.
pub open spec fn round_up(n: int, a: int) -> int {
    ((n + a - 1) / a) * a
}

proof fn lemma_round_up(n: int, a: int)
    requires
        n >= 0,
        a > 0,
    ensures
        n <= round_up(n, a) < n + a,
        round_up(n, a) % a == 0,
        n % a == 0 ==> round_up(n, a) == n,
        n % a != 0 ==> round_up(n, a) == n + (a - n % a),
{
    let q = n / a;
    let r = n % a;
    vstd::arithmetic::div_mod::lemma_fundamental_div_mod(n, a);
    assert(a * q == q * a) by (nonlinear_arith);
    if r == 0 {
        vstd::arithmetic::div_mod::lemma_fundamental_div_mod_converse(n + a - 1, a, q, a - 1);
        assert(round_up(n, a) == q * a);
    } else {
        assert((q + 1) * a == q * a + a) by (nonlinear_arith);
        vstd::arithmetic::div_mod::lemma_fundamental_div_mod_converse(n + a - 1, a, q + 1, r - 1);
        assert(round_up(n, a) == (q + 1) * a);
    }
    vstd::arithmetic::div_mod::lemma_mod_multiples_basic((n + a - 1) / a, a);
}

/// The row pitch of a texture copy whose rows hold `unpadded` bytes.
pub fn padded_row_bytes(unpadded: u32) -> (padded: u32)
    requires
        round_up(unpadded as int, 256) <= u32::MAX,
    ensures
        padded == round_up(unpadded as int, 256),
{
    proof {
        lemma_round_up(unpadded as int, 256);
    }
    let rest = unpadded % 256;
    if rest == 0 {
        unpadded
    } else {
        unpadded + (256 - rest)
    }
}

/// How a texture is laid out in the buffer it is dumped through.
#[derive(Clone, Copy, Debug, PartialEq, Eq, Structural)]
pub struct DumpLayout {
    pub width: u32,
    pub height: u32,
    /// The bytes of one row of the image.
    pub unpadded: u32,
    /// The bytes from one row to the next in the buffer.
    pub padded: u32,
}

impl DumpLayout {
    /// The layout of a `width` by `height` RGBA image copied out of a texture.
    pub open spec fn of(width: u32, height: u32) -> DumpLayout {
        DumpLayout {
            width,
            height,
            unpadded: (width * 4) as u32,
            padded: round_up(width * 4, 256) as u32,
        }
    }

    /// The bytes the buffer the texture is copied into holds.
    pub open spec fn buffer_bytes(self) -> int {
        self.padded * self.height
    }
}

/// Whether a dump of a `width` by `height` texture is refused: an empty one, or one past the
/// sanity limit, which is what a mis-typed handle looks like.
pub open spec fn dump_refused(width: u32, height: u32) -> bool {
    width == 0 || height == 0 || width > DUMP_SANITY_LIMIT || height > DUMP_SANITY_LIMIT
}

/// The layout of a texture dump, or `None` where the dump is refused.
///
/// The row sizes are worked out as 32-bit numbers before the size is checked, and so is the
/// buffer's size after it.
pub fn dump_layout(width: u32, height: u32) -> (layout: Option<DumpLayout>)
    requires
        round_up(width * 4, 256) <= u32::MAX,
        !dump_refused(width, height) ==> round_up(width * 4, 256) * height <= u32::MAX,
    ensures
        layout is None <==> dump_refused(width, height),
        layout matches Some(l) ==> l == DumpLayout::of(width, height),
{
    let unpadded = width * 4;
    let padded = padded_row_bytes(unpadded);
    if width == 0 || height == 0 || width > DUMP_SANITY_LIMIT || height > DUMP_SANITY_LIMIT {
        return None;
    }
    Some(DumpLayout { width, height, unpadded, padded })
}

/// The four little-endian bytes of `v`.
pub open spec fn le32(v: u32) -> Seq<u8> {
    seq![(v & 0xff) as u8, ((v >> 8) & 0xff) as u8, ((v >> 16) & 0xff) as u8, ((v >> 24) & 0xff) as u8]
}

/// The buffer row that image row `row` comes from.
pub open spec fn source_row(height: int, row: int, flip_y: bool) -> int {
    if flip_y {
        height - 1 - row
    } else {
        row
    }
}

/// The image's rows without their padding, bottom row first where `flip_y` is set.
pub open spec fn dump_body(layout: DumpLayout, data: Seq<u8>, flip_y: bool) -> Seq<u8> {
    Seq::new(
        (layout.unpadded * layout.height) as nat,
        |i: int|
            data[source_row(layout.height as int, i / layout.unpadded as int, flip_y)
                * layout.padded + i % layout.unpadded as int],
    )
}

/// The bytes of a dump file: the width and height as little-endian `u32`s, then the image's rows
/// without their padding, bottom row first where `flip_y` is set.
pub open spec fn dump_file(layout: DumpLayout, data: Seq<u8>, flip_y: bool) -> Seq<u8> {
    le32(layout.width) + le32(layout.height) + dump_body(layout, data, flip_y)
}

/// Appends the four little-endian bytes of `v`.
fn push_le32(v: u32, out: &mut Vec<u8>)
    ensures
        final(out)@ == old(out)@ + le32(v),
{
    out.push((v & 0xff) as u8);
    out.push(((v >> 8) & 0xff) as u8);
    out.push(((v >> 16) & 0xff) as u8);
    out.push(((v >> 24) & 0xff) as u8);
    assert(final(out)@ =~= old(out)@ + le32(v));
}

proof fn lemma_row_index(i: int, r: int, c: int, w: int)
    requires
        w > 0,
        0 <= c < w,
        r >= 0,
        i == r * w + c,
    ensures
        i / w == r,
        i % w == c,
{
    vstd::arithmetic::div_mod::lemma_fundamental_div_mod_converse(i, w, r, c);
}

/// The file a texture dump writes, from the bytes the texture was copied into.
pub fn dump_rgba(layout: &DumpLayout, data: &[u8], flip_y: bool) -> (file: Vec<u8>)
    requires
        *layout == DumpLayout::of(layout.width, layout.height),
        !dump_refused(layout.width, layout.height),
        layout.buffer_bytes() <= u32::MAX,
        data@.len() >= layout.buffer_bytes(),
    ensures
        file@ == dump_file(*layout, data@, flip_y),
{
    let width = layout.width;
    let height = layout.height;
    let unpadded = layout.unpadded;
    let padded = layout.padded;
    proof {
        lemma_round_up(width * 4, 256);
        assert(unpadded * height <= padded * height) by (nonlinear_arith)
            requires
                unpadded <= padded,
        ;
    }
    let mut out: Vec<u8> = Vec::new();
    push_le32(width, &mut out);
    push_le32(height, &mut out);
    let ghost header = le32(width) + le32(height);
    assert(out@ =~= header);
    let ghost body = dump_body(*layout, data@, flip_y);
    let mut row: u32 = 0;
    while row < height
        invariant
            *layout == DumpLayout::of(width, height),
            width == layout.width,
            height == layout.height,
            unpadded == layout.unpadded,
            padded == layout.padded,
            0 < unpadded <= padded,
            padded * height <= u32::MAX,
            data@.len() >= padded * height,
            row <= height,
            header.len() == 8,
            body == dump_body(*layout, data@, flip_y),
            body.len() == unpadded * height,
            out@.len() == 8 + row * unpadded,
            out@.subrange(0, 8) == header,
            forall|i: int| 0 <= i < row * unpadded ==> out@[8 + i] == #[trigger] body[i],
        decreases height - row,
    {
        let source = if flip_y {
            height - 1 - row
        } else {
            row
        };
        proof {
            assert(source * padded + padded <= height * padded) by (nonlinear_arith)
                requires
                    source < height,
            ;
            assert(height * padded == padded * height) by (nonlinear_arith);
            assert((row + 1) * unpadded <= height * unpadded) by (nonlinear_arith)
                requires
                    row + 1 <= height,
            ;
            assert(height * unpadded <= padded * height) by (nonlinear_arith)
                requires
                    unpadded <= padded,
            ;
            assert(height * unpadded == unpadded * height) by (nonlinear_arith);
        }
        let start = (source * padded) as usize;
        let mut c: u32 = 0;
        while c < unpadded
            invariant
                *layout == DumpLayout::of(width, height),
                width == layout.width,
                height == layout.height,
                unpadded == layout.unpadded,
                padded == layout.padded,
                0 < unpadded <= padded,
                padded * height <= u32::MAX,
                data@.len() >= padded * height,
                row < height,
                source == source_row(height as int, row as int, flip_y),
                start == source * padded,
                source * padded + padded <= height * padded,
                height * padded == padded * height,
                (row + 1) * unpadded <= padded * height,
                (row + 1) * unpadded <= unpadded * height,
                header.len() == 8,
                body == dump_body(*layout, data@, flip_y),
                body.len() == unpadded * height,
                c <= unpadded,
                out@.len() == 8 + row * unpadded + c,
                out@.subrange(0, 8) == header,
                forall|i: int| 0 <= i < row * unpadded + c ==> out@[8 + i] == #[trigger] body[i],
            decreases unpadded - c,
        {
            let ghost old_out = out@;
            out.push(data[start + c as usize]);
            proof {
                let i = row * unpadded + c;
                lemma_row_index(i, row as int, c as int, unpadded as int);
                assert((row + 1) * unpadded == row * unpadded + unpadded) by (nonlinear_arith);
                assert(0 <= i < body.len());
                assert(body[i] == data@[source * padded + c]);
                assert(out@[8 + i] == data@[source * padded + c]);
                assert(out@.subrange(0, 8) =~= old_out.subrange(0, 8));
                assert forall|j: int| 0 <= j < i + 1 implies out@[8 + j] == #[trigger] body[j] by {
                    if j < i {
                        assert(out@[8 + j] == old_out[8 + j]);
                    }
                }
            }
            c = c + 1;
        }
        assert((row + 1) * unpadded == row * unpadded + unpadded) by (nonlinear_arith);
        row = row + 1;
    }
    assert(height * unpadded == unpadded * height) by (nonlinear_arith);
    assert(out@ =~= header + body) by {
        assert forall|i: int| 0 <= i < out@.len() implies out@[i] == (header + body)[i] by {
            if i < 8 {
                assert(out@[i] == out@.subrange(0, 8)[i]);
            } else {
                assert(out@[8 + (i - 8)] == body[i - 8]);
            }
        }
    }
    out
}

/// The stretch of a buffer a readback maps: the asked-for range widened to the copy alignment at
/// both ends, but never past the buffer's end.
#[derive(Clone, Copy, Debug, PartialEq, Eq, Structural)]
pub struct ReadWindow {
    pub aligned_start: u64,
    pub aligned_end: u64,
    pub mapped_length: u64,
    /// Where the asked-for bytes start inside the window.
    pub padding: u64,
}

/// The window a read of `length` bytes at `offset` maps in a buffer of `buffer_size` bytes.
pub open spec fn spec_read_window(offset: u64, length: u64, buffer_size: u64) -> ReadWindow {
    let end = offset + length;
    let start = offset - offset % 4;
    let wide_end = if round_up(end, 4) < buffer_size {
        round_up(end, 4)
    } else {
        buffer_size as int
    };
    ReadWindow {
        aligned_start: start as u64,
        aligned_end: wide_end as u64,
        mapped_length: (wide_end - start) as u64,
        padding: (offset % 4) as u64,
    }
}

/// The window a buffer readback maps, or `None` where the read is refused: one that is empty or
/// runs past the buffer's end.
pub fn read_window(offset: u64, length: u64, buffer_size: u64) -> (window: Option<ReadWindow>)
    requires
        offset + length <= u64::MAX,
        offset + length <= buffer_size ==> round_up(offset + length, 4) <= u64::MAX,
    ensures
        window is None <==> offset + length > buffer_size || length == 0,
        window matches Some(w) ==> w == spec_read_window(offset, length, buffer_size),
{
    let end = offset + length;
    if end > buffer_size || length == 0 {
        return None;
    }
    proof {
        lemma_round_up(end as int, 4);
        lemma_round_up(offset as int, 4);
    }
    let aligned_start = offset - offset % COPY_BUFFER_ALIGNMENT;
    let rest = end % COPY_BUFFER_ALIGNMENT;
    let rounded = if rest == 0 {
        end
    } else {
        end + (COPY_BUFFER_ALIGNMENT - rest)
    };
    let aligned_end = if rounded < buffer_size {
        rounded
    } else {
        buffer_size
    };
    Some(
        ReadWindow {
            aligned_start,
            aligned_end,
            mapped_length: aligned_end - aligned_start,
            padding: offset - aligned_start,
        },
    )
}

/// One buffer-to-buffer copy.
#[derive(Clone, Copy, Debug, PartialEq, Eq, Structural)]
pub struct RowCopy {
    pub source: u64,
    pub destination: u64,
    pub length: u64,
}

/// The row copies that move a texture readback out of a padded scratch buffer into tightly packed
/// rows at `offset`: row `r` goes from `r * padded` to `offset + r * unpadded`.
pub open spec fn readback_copies(unpadded: u32, padded: u32, height: u32, offset: u64) -> Seq<
    RowCopy,
> {
    Seq::new(
        height as nat,
        |r: int|
            RowCopy {
                source: (r * padded) as u64,
                destination: (offset + r * unpadded) as u64,
                length: unpadded as u64,
            },
    )
}

/// How a rectangle of a texture is read back into a buffer: `None` where its rows are already
/// aligned and it is copied directly, else the row copies out of a scratch buffer of
/// `padded * height` bytes that the rectangle is copied into first.
pub fn readback_rows(unpadded: u32, height: u32, offset: u64) -> (rows: Option<Vec<RowCopy>>)
    requires
        round_up(unpadded as int, 256) <= u32::MAX,
        round_up(unpadded as int, 256) != unpadded ==> round_up(unpadded as int, 256) * height
            <= u32::MAX && offset + height * unpadded <= u64::MAX,
    ensures
        rows is None <==> round_up(unpadded as int, 256) == unpadded,
        rows matches Some(v) ==> v@ == readback_copies(
            unpadded,
            round_up(unpadded as int, 256) as u32,
            height,
            offset,
        ),
{
    let padded = padded_row_bytes(unpadded);
    if unpadded == padded {
        return None;
    }
    let ghost expected = readback_copies(unpadded, padded, height, offset);
    let mut rows: Vec<RowCopy> = Vec::new();
    let mut r: u32 = 0;
    while r < height
        invariant
            padded == round_up(unpadded as int, 256),
            padded * height <= u32::MAX,
            offset + height * unpadded <= u64::MAX,
            r <= height,
            expected == readback_copies(unpadded, padded, height, offset),
            rows@ == expected.take(r as int),
        decreases height - r,
    {
        proof {
            assert(r * padded <= padded * height) by (nonlinear_arith)
                requires
                    r < height,
            ;
            assert(r * unpadded <= height * unpadded) by (nonlinear_arith)
                requires
                    r < height,
            ;
        }
        let copy = RowCopy {
            source: r as u64 * padded as u64,
            destination: offset + r as u64 * unpadded as u64,
            length: unpadded as u64,
        };
        rows.push(copy);
        assert(rows@ =~= expected.take(r as int + 1));
        r = r + 1;
    }
    assert(expected.take(height as int) =~= expected);
    Some(rows)
}

/// How an upload of a rectangle out of a buffer is staged.
#[derive(Debug)]
pub struct UploadRows {
    /// The row pitch of the scratch buffer the rows are gathered in.
    pub aligned_row_bytes: u64,
    /// The copies of the rows that can be made, in row order.
    pub copies: Vec<RowCopy>,
}

/// Where row `row` of an upload starts in the source buffer.
pub open spec fn upload_row_offset(
    buffer_start: u64,
    source_x: u32,
    source_y: u32,
    source_width: u32,
    texel_size: u64,
    row: int,
) -> int {
    buffer_start + (source_x + source_y * source_width) * texel_size + row * (source_width
        * texel_size)
}

/// Whether row `row` of an upload can be copied: it lies inside the buffer and both its start and
/// its length are multiples of the copy alignment.
pub open spec fn upload_row_copyable(
    buffer_start: u64,
    buffer_size: u64,
    source_x: u32,
    source_y: u32,
    source_width: u32,
    texel_size: u64,
    row: int,
) -> bool {
    let start = upload_row_offset(buffer_start, source_x, source_y, source_width, texel_size, row);
    let len = source_width * texel_size;
    &&& start < buffer_size
    &&& start + len <= buffer_size
    &&& start % 4 == 0
    &&& len % 4 == 0
}

/// The copies of the copyable rows among the first `rows` of an upload, in row order; row `r` lands
/// at `r` times the aligned pitch in the scratch buffer.
pub open spec fn upload_copies(
    buffer_start: u64,
    buffer_size: u64,
    source_x: u32,
    source_y: u32,
    source_width: u32,
    texel_size: u64,
    rows: int,
) -> Seq<RowCopy>
    decreases rows,
{
    if rows <= 0 {
        Seq::empty()
    } else {
        let before = upload_copies(
            buffer_start,
            buffer_size,
            source_x,
            source_y,
            source_width,
            texel_size,
            rows - 1,
        );
        if upload_row_copyable(
            buffer_start,
            buffer_size,
            source_x,
            source_y,
            source_width,
            texel_size,
            rows - 1,
        ) {
            before.push(
                RowCopy {
                    source: upload_row_offset(
                        buffer_start,
                        source_x,
                        source_y,
                        source_width,
                        texel_size,
                        rows - 1,
                    ) as u64,
                    destination: ((rows - 1) * round_up(source_width * texel_size, 256)) as u64,
                    length: (source_width * texel_size) as u64,
                },
            )
        } else {
            before
        }
    }
}

/// Which rows of a rectangle of `source_width` by `source_height` texels at (`source_x`,
/// `source_y`) of a buffer can be gathered into a scratch buffer with an aligned pitch, for a
/// buffer-to-texture copy; the copy is made only where at least one row can be.
pub fn upload_rows(
    buffer_start: u64,
    buffer_size: u64,
    source_x: u32,
    source_y: u32,
    source_width: u32,
    source_height: u32,
    texel_size: u64,
) -> (plan: UploadRows)
    requires
        upload_row_offset(
            buffer_start,
            source_x,
            source_y,
            source_width,
            texel_size,
            source_height as int,
        ) <= u64::MAX,
        round_up(source_width * texel_size, 256) * source_height <= u64::MAX,
        round_up(source_width * texel_size, 256) <= u64::MAX,
    ensures
        plan.aligned_row_bytes == round_up(source_width * texel_size, 256),
        plan.copies@ == upload_copies(
            buffer_start,
            buffer_size,
            source_x,
            source_y,
            source_width,
            texel_size,
            source_height as int,
        ),
{
    let ghost row_bytes: int = source_width * texel_size;
    proof {
        lemma_round_up(row_bytes, 256);
        assert(source_y * source_width <= 0xffff_ffff * 0xffff_ffff) by (nonlinear_arith)
            requires
                source_y <= 0xffff_ffff,
                source_width <= 0xffff_ffff,
        ;
        assert(0 <= (source_x + source_y * source_width) * texel_size) by (nonlinear_arith)
            requires
                source_x >= 0,
                source_y * source_width >= 0,
                texel_size >= 0,
        ;
        assert(0 <= source_height * (source_width * texel_size)) by (nonlinear_arith)
            requires
                source_height >= 0,
                source_width * texel_size >= 0,
        ;
        assert(0 <= source_width * texel_size) by (nonlinear_arith)
            requires
                source_width >= 0,
                texel_size >= 0,
        ;
    }
    let offset_texels = source_x as u64 + source_y as u64 * source_width as u64;
    let source_offset = buffer_start + offset_texels * texel_size;
    let src_row_bytes: u64 = source_width as u64 * texel_size;
    let rest = src_row_bytes % 256;
    let aligned_row_bytes = if rest == 0 {
        src_row_bytes
    } else {
        src_row_bytes + (256 - rest)
    };
    let mut copies: Vec<RowCopy> = Vec::new();
    let mut row: u32 = 0;
    while row < source_height
        invariant
            row_bytes == source_width * texel_size,
            src_row_bytes == row_bytes,
            aligned_row_bytes == round_up(row_bytes, 256),
            source_offset == buffer_start + (source_x + source_y * source_width) * texel_size,
            upload_row_offset(
                buffer_start,
                source_x,
                source_y,
                source_width,
                texel_size,
                source_height as int,
            ) <= u64::MAX,
            round_up(row_bytes, 256) * source_height <= u64::MAX,
            row <= source_height,
            copies@ == upload_copies(
                buffer_start,
                buffer_size,
                source_x,
                source_y,
                source_width,
                texel_size,
                row as int,
            ),
        decreases source_height - row,
    {
        proof {
            assert(row * row_bytes <= source_height * row_bytes) by (nonlinear_arith)
                requires
                    row < source_height,
                    row_bytes >= 0,
            ;
            assert((row + 1) * row_bytes <= source_height * row_bytes) by (nonlinear_arith)
                requires
                    row < source_height,
                    row_bytes >= 0,
            ;
            assert((row + 1) * row_bytes == row * row_bytes + row_bytes) by (nonlinear_arith);
            assert(row * round_up(row_bytes, 256) <= round_up(row_bytes, 256) * source_height)
                by (nonlinear_arith)
                requires
                    row < source_height,
                    round_up(row_bytes, 256) >= 0,
            ;
        }
        let src_row_offset = source_offset + row as u64 * src_row_bytes;
        let dst_row_offset = row as u64 * aligned_row_bytes;
        let src_end = src_row_offset + src_row_bytes;
        if src_row_offset < buffer_size && src_end <= buffer_size && src_row_offset % 4 == 0
            && src_row_bytes % 4 == 0 {
            copies.push(
                RowCopy {
                    source: src_row_offset,
                    destination: dst_row_offset,
                    length: src_row_bytes,
                },
            );
        }
        row = row + 1;
    }
    UploadRows { aligned_row_bytes, copies }
}

/// Why a buffer write is refused.
#[derive(Clone, Copy, Debug, PartialEq, Eq, Structural)]
pub enum WriteRefusal {
    /// The buffer was created without `COPY_DST`.
    NoCopyDst,
    /// The start or the length is not a multiple of the copy alignment.
    Unaligned,
}

/// Whether a write of `length` bytes at `start` into a buffer is refused, and why: a buffer that
/// cannot take a copy is named first, then an unaligned range.
pub fn buffer_write_refusal(has_copy_dst: bool, start: u64, length: u64) -> (r: Option<
    WriteRefusal,
>)
    ensures
        r == (if !has_copy_dst {
            Some(WriteRefusal::NoCopyDst)
        } else if start % 4 != 0 || length % 4 != 0 {
            Some(WriteRefusal::Unaligned)
        } else {
            None
        }),
{
    if !has_copy_dst {
        Some(WriteRefusal::NoCopyDst)
    } else if start % COPY_BUFFER_ALIGNMENT != 0 || length % COPY_BUFFER_ALIGNMENT != 0 {
        Some(WriteRefusal::Unaligned)
    } else {
        None
    }
}

} // verus!
