//! GPU frame timestamps: which slot a frame's two timestamps go to, and when they are read back.
//!
//! A frame writes a timestamp at the start of its first submission and one at the end of its last,
//! into one of a few slots so the next frames can be recorded while the previous one's readback is
//! still in flight. A slot's pair is resolved into a buffer at the end of the frame and mapped after
//! the present; what was measured is the difference of the two ticks.

use vstd::prelude::*;

use crate::section::le_u64_at;

verus! {

/// How many frames' timestamps can be in flight at once.
pub const SLOTS: usize = 3;

/// Bytes in one slot's pair of timestamps.
pub const PAIR_BYTES: u64 = 16;

/// Which slot the next frame writes to and whether a frame is open, and which slots wait for their
/// readback to be mapped.
pub struct FrameSlots {
    pub next_slot: usize,
    pub frame_slot: usize,
    pub frame_open: bool,
    pub awaiting_map: Vec<bool>,
}

/// Where the end of a frame writes: the first of the slot's two queries, and the offset of the
/// slot's pair in the resolve buffer.
#[derive(Clone, Copy, Debug, PartialEq, Eq, Structural)]
pub struct FrameEnd {
    pub slot: usize,
    pub first_query: u32,
    pub resolve_offset: u64,
}

/// The slots among the first `n` whose flag is set, in order.
pub open spec fn waiting_slots(flags: Seq<bool>, n: int) -> Seq<usize>
    decreases n,
{
    if n <= 0 {
        Seq::empty()
    } else {
        let before = waiting_slots(flags, n - 1);
        if flags[n - 1] {
            before.push((n - 1) as usize)
        } else {
            before
        }
    }
}

impl FrameSlots {
    /// Whether the slot numbers are slots and there is one readback flag per slot.
    pub open spec fn wf(&self) -> bool {
        &&& self.next_slot < SLOTS
        &&& self.frame_slot < SLOTS
        &&& self.awaiting_map@.len() == SLOTS
    }

    /// No frame recorded yet.
    pub fn new() -> (slots: FrameSlots)
        ensures
            slots.wf(),
            slots.next_slot == 0,
            !slots.frame_open,
            forall|i: int| 0 <= i < SLOTS ==> !(#[trigger] slots.awaiting_map@[i]),
    {
        let awaiting_map = vec![false, false, false];
        FrameSlots { next_slot: 0, frame_slot: 0, frame_open: false, awaiting_map }
    }

    /// Opens a frame and says which query its first timestamp goes to, or nothing when a frame is
    /// already open.
    pub fn frame_begin(&mut self) -> (query: Option<u32>)
        requires
            old(self).wf(),
        ensures
            final(self).wf(),
            final(self).awaiting_map@ == old(self).awaiting_map@,
            old(self).frame_open ==> query is None && final(self).next_slot == old(self).next_slot
                && final(self).frame_slot == old(self).frame_slot && final(self).frame_open,
            !old(self).frame_open ==> query == Some((old(self).next_slot * 2) as u32)
                && final(self).frame_slot == old(self).next_slot && final(self).next_slot == (
            old(self).next_slot + 1) % (SLOTS as int) && final(self).frame_open,
    {
        if self.frame_open {
            return None;
        }
        let slot = self.next_slot;
        self.next_slot = (slot + 1) % SLOTS;
        self.frame_slot = slot;
        self.frame_open = true;
        Some((slot * 2) as u32)
    }

    /// Closes the open frame, says where its timestamps go, and marks its slot as waiting for the
    /// readback; nothing when no frame is open.
    pub fn frame_end(&mut self, resolve_stride: u64) -> (end: Option<FrameEnd>)
        requires
            old(self).wf(),
            resolve_stride * SLOTS <= u64::MAX,
        ensures
            final(self).wf(),
            final(self).next_slot == old(self).next_slot,
            final(self).frame_slot == old(self).frame_slot,
            !old(self).frame_open ==> end is None && final(self).awaiting_map@ == old(
                self,
            ).awaiting_map@ && !final(self).frame_open,
            old(self).frame_open ==> end == Some(
                FrameEnd {
                    slot: old(self).frame_slot,
                    first_query: (old(self).frame_slot * 2) as u32,
                    resolve_offset: (old(self).frame_slot * resolve_stride) as u64,
                },
            ) && !final(self).frame_open && final(self).awaiting_map@ == old(
                self,
            ).awaiting_map@.update(old(self).frame_slot as int, true),
    {
        if !self.frame_open {
            return None;
        }
        let slot = self.frame_slot;
        assert(slot * resolve_stride <= resolve_stride * SLOTS) by (nonlinear_arith)
            requires
                slot < SLOTS,
        ;
        let offset = (slot as u64) * resolve_stride;
        self.frame_open = false;
        self.awaiting_map.set(slot, true);
        Some(FrameEnd { slot, first_query: (slot * 2) as u32, resolve_offset: offset })
    }

    /// The slots whose readback can be asked for now that the frame was presented, in slot order;
    /// they stop waiting.
    pub fn frame_presented(&mut self) -> (ready: Vec<usize>)
        requires
            old(self).wf(),
        ensures
            final(self).wf(),
            final(self).next_slot == old(self).next_slot,
            final(self).frame_slot == old(self).frame_slot,
            final(self).frame_open == old(self).frame_open,
            forall|i: int| 0 <= i < SLOTS ==> !(#[trigger] final(self).awaiting_map@[i]),
            ready@ == waiting_slots(old(self).awaiting_map@, SLOTS as int),
    {
        let ghost waiting = self.awaiting_map@;
        let mut ready: Vec<usize> = Vec::new();
        let mut index: usize = 0;
        while index < self.awaiting_map.len()
            invariant
                index <= SLOTS,
                self.awaiting_map@.len() == SLOTS,
                self.next_slot < SLOTS,
                self.frame_slot < SLOTS,
                self.next_slot == old(self).next_slot,
                self.frame_slot == old(self).frame_slot,
                self.frame_open == old(self).frame_open,
                waiting == old(self).awaiting_map@,
                forall|k: int| 0 <= k < index ==> !(#[trigger] self.awaiting_map@[k]),
                forall|k: int| index <= k < SLOTS ==> self.awaiting_map@[k] == waiting[k],
                ready@ == waiting_slots(waiting, index as int),
            decreases SLOTS - index,
        {
            if self.awaiting_map[index] {
                self.awaiting_map.set(index, false);
                ready.push(index);
            }
            index = index + 1;
        }
        ready
    }
}

/// Reads the little-endian `u64` at byte `start`.
fn read_le_u64(bytes: &[u8], start: usize) -> (v: u64)
    requires
        start + 8 <= bytes@.len(),
    ensures
        v == le_u64_at(bytes@, start as int),
{
    let len = bytes.len();
    assert(bytes@.len() == len);
    let value: u64 = bytes[start] as u64 + (bytes[start + 1] as u64) * 256 + (bytes[start + 2]
        as u64) * 65536 + (bytes[start + 3] as u64) * 16777216 + (bytes[start + 4] as u64)
        * 4294967296 + (bytes[start + 5] as u64) * 1099511627776 + (bytes[start + 6] as u64)
        * 281474976710656 + (bytes[start + 7] as u64) * 72057594037927936;
    value
}

/// The start and end timestamps of a slot's readback: two little-endian `u64`s.
pub fn decode_pair(data: &[u8]) -> (pair: (u64, u64))
    requires
        data@.len() >= PAIR_BYTES,
    ensures
        pair.0 == le_u64_at(data@, 0),
        pair.1 == le_u64_at(data@, 8),
{
    (read_le_u64(data, 0), read_le_u64(data, 8))
}

/// How many ticks a frame took: the end minus the start, wrapping, since the GPU's counter may wrap
/// between the two.
pub fn elapsed_ticks(start: u64, end: u64) -> (ticks: u64)
    ensures
        ticks == end.wrapping_sub(start),
{
    end.wrapping_sub(start)
}

} // verus!
