//! Buffers Minecraft has closed, kept alive for a short while.
//!
//! Minecraft closes a buffer and then writes to it in the same frame, and a write to a destroyed
//! buffer ends the process; so a closed buffer is held for half a second, within a byte budget,
//! before it is really dropped.

use vstd::prelude::*;

verus! {

/// How long a closed buffer is kept alive, in nanoseconds: half a second.
pub const BUFFER_QUARANTINE_NANOS: u64 = 500_000_000;

/// The quarantine's budget, in bytes.
pub const BUFFER_QUARANTINE_BYTES: u64 = 33554432;

/// A closed buffer, its size and when it was closed (in nanoseconds on a monotonic clock).
pub struct QuarantinedBuffer<B> {
    pub buffer: B,
    pub size: u64,
    pub closed_at: u64,
}

/// The closed buffers that are still held, oldest first.
pub struct Quarantine<B> {
    pub entries: Vec<QuarantinedBuffer<B>>,
}

/// Whether a buffer closed at `closed_at` is still inside its half second at `now`; a close that
/// the clock puts after `now` counts as no time elapsed.
pub open spec fn is_fresh(closed_at: u64, now: u64) -> bool {
    (if now >= closed_at {
        now - closed_at
    } else {
        0
    }) < BUFFER_QUARANTINE_NANOS
}

/// The entries of `s` that are still fresh at `now`, in order.
pub open spec fn fresh_entries<B>(s: Seq<QuarantinedBuffer<B>>, now: u64) -> Seq<
    QuarantinedBuffer<B>,
>
    decreases s.len(),
{
    if s.len() == 0 {
        s
    } else if is_fresh(s.last().closed_at, now) {
        fresh_entries(s.drop_last(), now).push(s.last())
    } else {
        fresh_entries(s.drop_last(), now)
    }
}

/// The entries of `s` whose half second is over at `now`, in order.
pub open spec fn stale_entries<B>(s: Seq<QuarantinedBuffer<B>>, now: u64) -> Seq<
    QuarantinedBuffer<B>,
>
    decreases s.len(),
{
    if s.len() == 0 {
        s
    } else if is_fresh(s.last().closed_at, now) {
        stale_entries(s.drop_last(), now)
    } else {
        stale_entries(s.drop_last(), now).push(s.last())
    }
}

/// The bytes the entries of `s` hold.
pub open spec fn total_bytes<B>(s: Seq<QuarantinedBuffer<B>>) -> nat
    decreases s.len(),
{
    if s.len() == 0 {
        0
    } else {
        (s[0].size as nat) + total_bytes(s.drop_first())
    }
}

/// How many of the oldest entries of `s` go so that a newcomer of `size` bytes fits the budget,
/// or until none is left.
pub open spec fn evict_count<B>(s: Seq<QuarantinedBuffer<B>>, size: u64) -> nat
    decreases s.len(),
{
    if s.len() == 0 || total_bytes(s) + size <= BUFFER_QUARANTINE_BYTES {
        0
    } else {
        1 + evict_count(s.drop_first(), size)
    }
}

/// The buffers of `s`, in order.
pub open spec fn buffers<B>(s: Seq<QuarantinedBuffer<B>>) -> Seq<B> {
    s.map_values(|e: QuarantinedBuffer<B>| e.buffer)
}

/// The entry for a buffer closed now.
pub open spec fn newcomer<B>(buffer: B, size: u64, now: u64) -> QuarantinedBuffer<B> {
    QuarantinedBuffer { buffer, size, closed_at: now }
}

proof fn lemma_evict_count_bound<B>(s: Seq<QuarantinedBuffer<B>>, size: u64)
    ensures
        evict_count(s, size) <= s.len(),
        evict_count(s, size) < s.len() ==> total_bytes(s.skip(evict_count(s, size) as int)) + size
            <= BUFFER_QUARANTINE_BYTES,
    decreases s.len(),
{
    if s.len() == 0 || total_bytes(s) + size <= BUFFER_QUARANTINE_BYTES {
        assert(s.skip(0) =~= s);
    } else {
        lemma_evict_count_bound(s.drop_first(), size);
        assert(s.skip(evict_count(s, size) as int) =~= s.drop_first().skip(
            evict_count(s.drop_first(), size) as int,
        ));
    }
}

proof fn lemma_total_bytes_push<B>(s: Seq<QuarantinedBuffer<B>>, x: QuarantinedBuffer<B>)
    ensures
        total_bytes(s.push(x)) == total_bytes(s) + x.size,
    decreases s.len(),
{
    if s.len() > 0 {
        assert(s.push(x).drop_first() =~= s.drop_first().push(x));
        assert(s.push(x)[0] == s[0]);
        lemma_total_bytes_push(s.drop_first(), x);
    } else {
        assert(s.push(x).drop_first() =~= s);
    }
}

proof fn lemma_fresh_entries_are_fresh<B>(s: Seq<QuarantinedBuffer<B>>, now: u64)
    ensures
        forall|i: int|
            0 <= i < fresh_entries(s, now).len() ==> is_fresh(
                #[trigger] fresh_entries(s, now)[i].closed_at,
                now,
            ),
    decreases s.len(),
{
    if s.len() > 0 {
        lemma_fresh_entries_are_fresh(s.drop_last(), now);
        let prev = fresh_entries(s.drop_last(), now);
        assert forall|i: int| 0 <= i < fresh_entries(s, now).len() implies is_fresh(
            #[trigger] fresh_entries(s, now)[i].closed_at,
            now,
        ) by {
            if i < prev.len() {
                assert(fresh_entries(s, now)[i] == prev[i]);
            }
        }
    }
}

proof fn lemma_total_bytes_bound<B>(s: Seq<QuarantinedBuffer<B>>)
    ensures
        total_bytes(s) <= s.len() * 0x1_0000_0000_0000_0000,
    decreases s.len(),
{
    if s.len() > 0 {
        lemma_total_bytes_bound(s.drop_first());
    }
}

impl<B> Quarantine<B> {
    /// An empty quarantine.
    pub fn new() -> (q: Self)
        ensures
            q.entries@.len() == 0,
    {
        Quarantine { entries: Vec::new() }
    }

    /// Takes in a buffer closed at `now`.
    ///
    /// Entries whose half second is over go first; then the oldest go, one at a time, until the
    /// newcomer fits the byte budget or none is left - a buffer larger than the whole budget still
    /// gets its half second. The newcomer goes last. The buffers that leave are handed back, the
    /// expired ones first, to be dropped.
    pub fn quarantine_buffer(&mut self, buffer: B, size: u64, now: u64) -> (released: Vec<B>)
        ensures
            ({
                let fresh = fresh_entries(old(self).entries@, now);
                let k = evict_count(fresh, size) as int;
                &&& final(self).entries@ == fresh.skip(k).push(newcomer(buffer, size, now))
                &&& released@ == buffers(stale_entries(old(self).entries@, now)) + buffers(
                    fresh.take(k),
                )
            }),
            final(self).entries@.len() == 1 || total_bytes(final(self).entries@)
                <= BUFFER_QUARANTINE_BYTES,
            forall|i: int|
                0 <= i < final(self).entries@.len() ==> is_fresh(
                    #[trigger] final(self).entries@[i].closed_at,
                    now,
                ),
    {
        let ghost s = self.entries@;
        let mut rest: Vec<QuarantinedBuffer<B>> = Vec::new();
        std::mem::swap(&mut rest, &mut self.entries);
        let n = rest.len();
        let mut kept: Vec<QuarantinedBuffer<B>> = Vec::new();
        let mut released: Vec<B> = Vec::new();
        let mut i: usize = 0;
        while i < n
            invariant
                n == s.len(),
                i <= n,
                rest@ == s.skip(i as int),
                kept@ == fresh_entries(s.take(i as int), now),
                released@ == buffers(stale_entries(s.take(i as int), now)),
            decreases n - i,
        {
            assert(s.take(i as int + 1).drop_last() =~= s.take(i as int));
            let entry = rest.remove(0);
            assert(entry == s[i as int]);
            assert(rest@ =~= s.skip(i as int + 1));
            let age = if now >= entry.closed_at {
                now - entry.closed_at
            } else {
                0
            };
            if age < BUFFER_QUARANTINE_NANOS {
                kept.push(entry);
            } else {
                let ghost stale = stale_entries(s.take(i as int), now);
                released.push(entry.buffer);
                assert(buffers(stale.push(s[i as int])) =~= buffers(stale).push(s[i as int].buffer));
            }
            i = i + 1;
        }
        assert(s.take(n as int) =~= s);
        let ghost fresh = kept@;
        let ghost stale_released = released@;
        let m = kept.len();
        let mut bytes: u128 = 0;
        let mut j: usize = m;
        proof {
            assert(fresh.skip(m as int) =~= Seq::<QuarantinedBuffer<B>>::empty());
        }
        while j > 0
            invariant
                m == fresh.len(),
                kept@ == fresh,
                j <= m,
                bytes == total_bytes(fresh.skip(j as int)),
                bytes <= (m - j) * 0x1_0000_0000_0000_0000,
            decreases j,
        {
            j = j - 1;
            assert(fresh.skip(j as int).drop_first() =~= fresh.skip(j as int + 1));
            assert(bytes + kept[j as int].size <= (m - j) * 0x1_0000_0000_0000_0000) by (nonlinear_arith)
                requires
                    bytes <= (m - j - 1) * 0x1_0000_0000_0000_0000,
                    kept[j as int].size < 0x1_0000_0000_0000_0000,
            ;
            assert((m - j) * 0x1_0000_0000_0000_0000 < 0x1_0000_0000_0000_0000_0000_0000_0000_0000)
                by (nonlinear_arith)
                requires
                    m - j <= 0xffff_ffff_ffff_ffff,
            ;
            bytes = bytes + kept[j].size as u128;
        }
        assert(fresh.skip(0) =~= fresh);
        assert(bytes <= 0xffff_ffff_ffff_ffff_0000_0000_0000_0000) by (nonlinear_arith)
            requires
                bytes <= m * 0x1_0000_0000_0000_0000,
                m <= 0xffff_ffff_ffff_ffff,
        ;
        proof {
            lemma_evict_count_bound(fresh, size);
        }
        let mut e: usize = 0;
        while kept.len() > 0 && bytes + (size as u128) > BUFFER_QUARANTINE_BYTES as u128
            invariant
                m == fresh.len(),
                e <= m,
                kept@ == fresh.skip(e as int),
                bytes == total_bytes(fresh.skip(e as int)),
                bytes <= 0xffff_ffff_ffff_ffff_0000_0000_0000_0000,
                evict_count(fresh.skip(e as int), size) + e == evict_count(fresh, size),
                released@ == stale_released + buffers(fresh.take(e as int)),
            decreases kept.len(),
        {
            proof {
                lemma_total_bytes_bound(fresh.skip(e as int));
            }
            let entry = kept.remove(0);
            assert(entry == fresh[e as int]);
            assert(kept@ =~= fresh.skip(e as int + 1));
            assert(fresh.skip(e as int).drop_first() =~= fresh.skip(e as int + 1));
            bytes = bytes - entry.size as u128;
            released.push(entry.buffer);
            assert(fresh.take(e as int + 1) =~= fresh.take(e as int).push(fresh[e as int]));
            assert(buffers(fresh.take(e as int + 1)) =~= buffers(fresh.take(e as int)).push(
                fresh[e as int].buffer,
            ));
            e = e + 1;
        }
        assert(evict_count(fresh.skip(e as int), size) == 0);
        proof {
            lemma_total_bytes_push(fresh.skip(e as int), newcomer(buffer, size, now));
            lemma_fresh_entries_are_fresh(s, now);
            assert forall|i: int| 0 <= i < fresh.skip(e as int).len() implies is_fresh(
                #[trigger] fresh.skip(e as int)[i].closed_at,
                now,
            ) by {
                assert(fresh.skip(e as int)[i] == fresh[i + e]);
            }
        }
        kept.push(QuarantinedBuffer { buffer, size, closed_at: now });
        self.entries = kept;
        released
    }
}

} // verus!
