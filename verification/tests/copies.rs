use wgpu_mc_core::copies::{
    buffer_write_refusal, dump_layout, dump_rgba, padded_row_bytes, read_window, readback_rows,
    upload_rows, DumpLayout, ReadWindow, RowCopy, WriteRefusal, COPY_BUFFER_ALIGNMENT,
    COPY_BYTES_PER_ROW_ALIGNMENT, DUMP_SANITY_LIMIT,
};

#[test]
fn rows_are_padded_to_256_bytes() {
    assert_eq!(COPY_BYTES_PER_ROW_ALIGNMENT, 256);
    assert_eq!(COPY_BUFFER_ALIGNMENT, 4);
    assert_eq!(padded_row_bytes(0), 0);
    assert_eq!(padded_row_bytes(1), 256);
    assert_eq!(padded_row_bytes(256), 256);
    // An 854-wide RGBA screenshot row.
    assert_eq!(padded_row_bytes(3416), 3584);
}

#[test]
fn empty_and_oversized_dumps_are_refused() {
    assert_eq!(DUMP_SANITY_LIMIT, 1 << 16);
    assert_eq!(dump_layout(0, 10), None);
    assert_eq!(dump_layout(10, 0), None);
    assert_eq!(dump_layout(DUMP_SANITY_LIMIT + 1, 1), None);
    assert_eq!(dump_layout(1, DUMP_SANITY_LIMIT + 1), None);
    assert_eq!(
        dump_layout(854, 480),
        Some(DumpLayout { width: 854, height: 480, unpadded: 3416, padded: 3584 })
    );
}

#[test]
fn a_dump_is_a_header_then_unpadded_rows() {
    let layout = dump_layout(2, 3).unwrap();
    assert_eq!(layout.unpadded, 8);
    assert_eq!(layout.padded, 256);
    let mut data = vec![0u8; 256 * 3];
    for row in 0..3 {
        for c in 0..8 {
            data[row * 256 + c] = (row * 10 + c) as u8;
        }
        data[row * 256 + 8] = 0xee;
    }
    let file = dump_rgba(&layout, &data, false);
    assert_eq!(&file[0..8], &[2, 0, 0, 0, 3, 0, 0, 0]);
    assert_eq!(file.len(), 8 + 24);
    assert_eq!(&file[8..16], &[0, 1, 2, 3, 4, 5, 6, 7]);
    assert_eq!(&file[24..32], &[20, 21, 22, 23, 24, 25, 26, 27]);
    let flipped = dump_rgba(&layout, &data, true);
    assert_eq!(&flipped[8..16], &[20, 21, 22, 23, 24, 25, 26, 27]);
    assert_eq!(&flipped[24..32], &[0, 1, 2, 3, 4, 5, 6, 7]);
}

#[test]
fn a_readback_is_widened_to_the_copy_alignment() {
    assert_eq!(read_window(0, 0, 16), None);
    assert_eq!(read_window(10, 7, 16), None);
    // The cloud mesh: 29349 bytes.
    assert_eq!(
        read_window(0, 29349, 40000),
        Some(ReadWindow { aligned_start: 0, aligned_end: 29352, mapped_length: 29352, padding: 0 })
    );
    assert_eq!(
        read_window(5, 6, 12),
        Some(ReadWindow { aligned_start: 4, aligned_end: 12, mapped_length: 8, padding: 1 })
    );
    // Never past the buffer's end.
    assert_eq!(
        read_window(5, 5, 10),
        Some(ReadWindow { aligned_start: 4, aligned_end: 10, mapped_length: 6, padding: 1 })
    );
}

#[test]
fn aligned_rows_are_read_back_directly() {
    assert!(readback_rows(1024, 4, 0).is_none());
    let rows = readback_rows(3416, 2, 100).unwrap();
    assert_eq!(
        rows,
        vec![
            RowCopy { source: 0, destination: 100, length: 3416 },
            RowCopy { source: 3584, destination: 3516, length: 3416 },
        ]
    );
}

#[test]
fn upload_rows_outside_the_buffer_or_unaligned_are_skipped() {
    // 3 texels wide, 4 bytes each: 12-byte rows, padded to 256.
    let plan = upload_rows(0, 30, 0, 0, 3, 3, 4);
    assert_eq!(plan.aligned_row_bytes, 256);
    assert_eq!(
        plan.copies,
        vec![
            RowCopy { source: 0, destination: 0, length: 12 },
            RowCopy { source: 12, destination: 256, length: 12 },
        ]
    );
    // A start that is not a multiple of four.
    let odd = upload_rows(2, 1000, 0, 0, 3, 2, 4);
    assert!(odd.copies.is_empty());
    // The rectangle's corner moves the start by whole texels.
    let moved = upload_rows(0, 1000, 1, 1, 4, 1, 4);
    assert_eq!(moved.copies, vec![RowCopy { source: 20, destination: 0, length: 16 }]);
}

#[test]
fn writes_need_copy_dst_and_alignment() {
    assert_eq!(buffer_write_refusal(false, 0, 16), Some(WriteRefusal::NoCopyDst));
    assert_eq!(buffer_write_refusal(true, 2, 16), Some(WriteRefusal::Unaligned));
    assert_eq!(buffer_write_refusal(true, 0, 15), Some(WriteRefusal::Unaligned));
    assert_eq!(buffer_write_refusal(true, 16, 32), None);
}
