//! Keys for the on-disk cache of processed shaders, and the bookkeeping around it.
//!
//! Translating a pipeline's GLSL is deterministic: the same vertex source, fragment source, defines,
//! binding plan and vertex layout always produce the same two strings. So the result is kept on disk
//! under a key made of those inputs. The key is the format version and two 64-bit hashes of the
//! inputs, each input length-prefixed, so two different pipelines cannot share an entry; map-shaped
//! inputs go in through [`canonical`], whose output does not depend on the order a map was walked in.
//!
//! Reading and writing the entries is the application's business; this module decides the key, what
//! an entry holds, and when the cache reports what it did.

use vstd::prelude::*;
use vstd::multiset::Multiset;
use vstd::relations::{sorted_by, total_ordering};
use vstd::seq_lib::lemma_sorted_unique;
use vstd::seq_lib::lemma_multiset_commutative;
use vstd::string::*;

use crate::lookup::{last_entries, last_entries_of, named};
use crate::text::{decimal, hex16, push_char, push_chars, push_decimal, push_hex16};

verus! {

/// Bumped whenever the preprocessor's output could differ for the same input.
///
/// The key starts with it, so an entry written by an older build is never read by a newer one.
pub const FORMAT_VERSION: u32 = 1;

/// Where the entries live, under the run directory.
pub const DIRECTORY: &'static str = "wgpu-shader-cache";

/// The starting state of the first hash (the FNV-1a offset basis).
pub const FIRST_SEED: u64 = 0xcbf2_9ce4_8422_2325;

/// The multiplier of the first hash (the 64-bit FNV prime).
pub const FIRST_PRIME: u64 = 0x0000_0100_0000_01b3;

/// The starting state, and the multiplier, of the second hash.
pub const SECOND_SEED: u64 = 0x9e37_79b9_7f4a_7c15;

/// The starting state of [`part`] (the 32-bit FNV-1a offset basis).
pub const PART_SEED: u32 = 0x811c_9dc5;

/// The multiplier of [`part`] (the 32-bit FNV prime).
pub const PART_PRIME: u32 = 0x0100_0193;

// ---------------------------------------------------------------------------------------------
// The key
// ---------------------------------------------------------------------------------------------

/// `v` rotated left by seven bits.
pub open spec fn rotl7(v: u64) -> u64 {
    (v << 7u64) | (v >> 57u64)
}

/// One step of the first hash: xor the byte in, multiply, wrapping.
pub open spec fn first_step(h: u64, byte: u8) -> u64 {
    (h ^ (byte as u64)).wrapping_mul(FIRST_PRIME)
}

/// One step of the second hash: rotate, xor the byte in, multiply, wrapping.
pub open spec fn second_step(h: u64, byte: u8) -> u64 {
    (rotl7(h) ^ (byte as u64)).wrapping_mul(SECOND_SEED)
}

/// The first hash of `bytes`, starting from `h`.
pub open spec fn first_hash(h: u64, bytes: Seq<u8>) -> u64
    decreases bytes.len(),
{
    if bytes.len() == 0 {
        h
    } else {
        first_step(first_hash(h, bytes.drop_last()), bytes.last())
    }
}

/// The second hash of `bytes`, starting from `h`.
pub open spec fn second_hash(h: u64, bytes: Seq<u8>) -> u64
    decreases bytes.len(),
{
    if bytes.len() == 0 {
        h
    } else {
        second_step(second_hash(h, bytes.drop_last()), bytes.last())
    }
}

/// Hashing one more byte is one more step of each hash.
proof fn lemma_hash_push(h1: u64, h2: u64, bytes: Seq<u8>, byte: u8)
    ensures
        first_hash(h1, bytes.push(byte)) == first_step(first_hash(h1, bytes), byte),
        second_hash(h2, bytes.push(byte)) == second_step(second_hash(h2, bytes), byte),
{
    assert(bytes.push(byte).drop_last() =~= bytes);
}

/// The eight little-endian bytes of `n`.
pub open spec fn le_bytes(n: u64) -> Seq<u8> {
    Seq::new(8, |i: int| ((n >> (8 * i) as u64) & 0xff) as u8)
}

/// The parts, each preceded by its length as eight little-endian bytes, one after the other.
///
/// The length prefix is what keeps `"ab", "c"` and `"a", "bc"` apart.
pub open spec fn framed(parts: Seq<Seq<u8>>) -> Seq<u8>
    decreases parts.len(),
{
    if parts.len() == 0 {
        Seq::empty()
    } else {
        framed(parts.drop_last()) + le_bytes(parts.last().len() as u64) + parts.last()
    }
}

/// The UTF-8 bytes of each part.
pub open spec fn part_bytes(parts: Seq<&str>) -> Seq<Seq<u8>> {
    parts.map_values(|p: &str| p.spec_bytes())
}

/// The key for the given parts: the format version, a dash, and the two hashes of the framed parts
/// in hexadecimal.
pub open spec fn spec_key(parts: Seq<&str>) -> Seq<char> {
    let bytes = framed(part_bytes(parts));
    decimal(FORMAT_VERSION as nat).push('-') + hex16(first_hash(FIRST_SEED, bytes)) + hex16(
        second_hash(SECOND_SEED, bytes),
    )
}

proof fn lemma_le_bytes_injective(n: u64, m: u64)
    requires
        le_bytes(n) == le_bytes(m),
    ensures
        n == m,
{
    let a = le_bytes(n);
    let b = le_bytes(m);
    assert(a[0] == b[0] && a[1] == b[1] && a[2] == b[2] && a[3] == b[3]);
    assert(a[4] == b[4] && a[5] == b[5] && a[6] == b[6] && a[7] == b[7]);
    lemma_bytes_determine(n, m);
}

proof fn lemma_bytes_determine(n: u64, m: u64)
    by (bit_vector)
    requires
        ((n >> 0u64) & 0xff) as u8 == ((m >> 0u64) & 0xff) as u8,
        ((n >> 8u64) & 0xff) as u8 == ((m >> 8u64) & 0xff) as u8,
        ((n >> 16u64) & 0xff) as u8 == ((m >> 16u64) & 0xff) as u8,
        ((n >> 24u64) & 0xff) as u8 == ((m >> 24u64) & 0xff) as u8,
        ((n >> 32u64) & 0xff) as u8 == ((m >> 32u64) & 0xff) as u8,
        ((n >> 40u64) & 0xff) as u8 == ((m >> 40u64) & 0xff) as u8,
        ((n >> 48u64) & 0xff) as u8 == ((m >> 48u64) & 0xff) as u8,
        ((n >> 56u64) & 0xff) as u8 == ((m >> 56u64) & 0xff) as u8,
    ensures
        n == m,
{
}

/// The framing of a first part followed by the rest.
proof fn lemma_framed_front(p: Seq<u8>, rest: Seq<Seq<u8>>)
    ensures
        framed(seq![p] + rest) == le_bytes(p.len() as u64) + p + framed(rest),
    decreases rest.len(),
{
    if rest.len() == 0 {
        assert((seq![p] + rest).drop_last() =~= Seq::<Seq<u8>>::empty());
        assert(seq![p] + rest =~= seq![p]);
        assert(seq![p].drop_last() =~= Seq::<Seq<u8>>::empty());
        assert(seq![p].last() == p);
        assert(framed(Seq::<Seq<u8>>::empty()) =~= Seq::<u8>::empty());
        assert(Seq::<u8>::empty() + le_bytes(p.len() as u64) + p =~= le_bytes(p.len() as u64) + p);
        assert(framed(seq![p]) =~= le_bytes(p.len() as u64) + p);
        assert(le_bytes(p.len() as u64) + p + framed(rest) =~= le_bytes(p.len() as u64) + p);
    } else {
        lemma_framed_front(p, rest.drop_last());
        assert((seq![p] + rest).drop_last() =~= seq![p] + rest.drop_last());
        assert((seq![p] + rest).last() == rest.last());
        assert(le_bytes(p.len() as u64) + p + framed(rest) =~= le_bytes(p.len() as u64) + p
            + framed(rest.drop_last()) + le_bytes(rest.last().len() as u64) + rest.last());
    }
}

/// Key parts cannot be confused with each other: two lists of parts whose framed bytes are the
/// same are the same list, so `"ab", "c"` and `"a", "bc"` are hashed from different bytes.
pub proof fn lemma_framing_is_unambiguous(a: Seq<Seq<u8>>, b: Seq<Seq<u8>>)
    requires
        forall|i: int| 0 <= i < a.len() ==> (#[trigger] a[i]).len() <= u64::MAX,
        forall|i: int| 0 <= i < b.len() ==> (#[trigger] b[i]).len() <= u64::MAX,
        framed(a) == framed(b),
    ensures
        a == b,
    decreases a.len(),
{
    if a.len() == 0 {
        if b.len() > 0 {
            assert(b =~= seq![b[0]] + b.skip(1));
            lemma_framed_front(b[0], b.skip(1));
            assert(framed(b).len() >= 8);
        }
        assert(a =~= b);
    } else if b.len() == 0 {
        assert(a =~= seq![a[0]] + a.skip(1));
        lemma_framed_front(a[0], a.skip(1));
        assert(framed(a).len() >= 8);
    } else {
        let (p, q) = (a[0], b[0]);
        assert(a =~= seq![p] + a.skip(1));
        assert(b =~= seq![q] + b.skip(1));
        lemma_framed_front(p, a.skip(1));
        lemma_framed_front(q, b.skip(1));
        let fa = framed(a);
        assert(fa.take(8) =~= le_bytes(p.len() as u64));
        assert(framed(b).take(8) =~= le_bytes(q.len() as u64));
        lemma_le_bytes_injective(p.len() as u64, q.len() as u64);
        assert(p.len() == q.len());
        assert(fa.subrange(8, 8 + p.len() as int) =~= p);
        assert(framed(b).subrange(8, 8 + q.len() as int) =~= q);
        assert(fa.skip(8 + p.len() as int) =~= framed(a.skip(1)));
        assert(framed(b).skip(8 + q.len() as int) =~= framed(b.skip(1)));
        assert forall|i: int| 0 <= i < a.skip(1).len() implies (#[trigger] a.skip(1)[i]).len()
            <= u64::MAX by {
            assert(a.skip(1)[i] == a[i + 1]);
        }
        assert forall|i: int| 0 <= i < b.skip(1).len() implies (#[trigger] b.skip(1)[i]).len()
            <= u64::MAX by {
            assert(b.skip(1)[i] == b[i + 1]);
        }
        lemma_framing_is_unambiguous(a.skip(1), b.skip(1));
        assert(a =~= b);
    }
}

/// Feeds one byte into both hashes.
fn feed(first: &mut u64, second: &mut u64, byte: u8)
    ensures
        *final(first) == first_step(*old(first), byte),
        *final(second) == second_step(*old(second), byte),
{
    *first = (*first ^ (byte as u64)).wrapping_mul(FIRST_PRIME);
    let s = *second;
    let rotated = (s << 7u64) | (s >> 57u64);
    *second = (rotated ^ (byte as u64)).wrapping_mul(SECOND_SEED);
}

/// A key for one translation, from the inputs that decide it.
///
/// Every part is length-prefixed and the bytes are hashed twice from different starting points, so
/// two different pipelines cannot land on the same entry. Every part has to be canonical: anything
/// map-shaped goes through [`canonical`] first.
pub fn key(parts: &[&str]) -> (k: String)
    ensures
        k@ == spec_key(parts@),
{
    let mut first: u64 = FIRST_SEED;
    let mut second: u64 = SECOND_SEED;
    let ghost all = part_bytes(parts@);

    let mut i: usize = 0;
    while i < parts.len()
        invariant
            i <= parts.len(),
            all == part_bytes(parts@),
            first == first_hash(FIRST_SEED, framed(all.take(i as int))),
            second == second_hash(SECOND_SEED, framed(all.take(i as int))),
        decreases parts.len() - i,
    {
        let part: &str = parts[i];
        let bytes: &[u8] = part.as_bytes();
        let len = bytes.len();
        assert(bytes@.len() == len);
        let len64 = len as u64;
        let ghost prefix = framed(all.take(i as int));
        let ghost lens = le_bytes(len64);

        let mut j: u64 = 0;
        while j < 8
            invariant
                j <= 8,
                lens == le_bytes(len64),
                first == first_hash(FIRST_SEED, prefix + lens.take(j as int)),
                second == second_hash(SECOND_SEED, prefix + lens.take(j as int)),
            decreases 8 - j,
        {
            let shift: u64 = 8 * j;
            let byte = ((len64 >> shift) & 0xff) as u8;
            assert(byte == lens[j as int]);
            proof {
                lemma_hash_push(FIRST_SEED, SECOND_SEED, prefix + lens.take(j as int), byte);
            }
            feed(&mut first, &mut second, byte);
            assert(prefix + lens.take(j as int + 1) =~= (prefix + lens.take(j as int)).push(byte));
            j = j + 1;
        }
        assert(lens.take(8) =~= lens);
        let ghost with_len = prefix + lens;

        let mut k: usize = 0;
        while k < len
            invariant
                k <= len,
                len == bytes@.len(),
                first == first_hash(FIRST_SEED, with_len + bytes@.take(k as int)),
                second == second_hash(SECOND_SEED, with_len + bytes@.take(k as int)),
            decreases len - k,
        {
            let byte = bytes[k];
            proof {
                lemma_hash_push(FIRST_SEED, SECOND_SEED, with_len + bytes@.take(k as int), byte);
            }
            feed(&mut first, &mut second, byte);
            assert(with_len + bytes@.take(k as int + 1) =~= (with_len + bytes@.take(
                k as int,
            )).push(byte));
            k = k + 1;
        }
        assert(bytes@.take(len as int) =~= bytes@);
        assert(all[i as int] == part.spec_bytes());
        assert(all.take(i as int + 1).drop_last() =~= all.take(i as int));
        assert(all.take(i as int + 1).last() == bytes@);
        i = i + 1;
    }
    assert(all.take(parts.len() as int) =~= all);

    let mut digits: Vec<char> = Vec::new();
    push_decimal(FORMAT_VERSION as u64, &mut digits);
    let mut out = String::new();
    push_chars(&digits, &mut out);
    push_char(&mut out, '-');
    push_hex16(first, &mut out);
    push_hex16(second, &mut out);
    out
}

/// The 32-bit FNV-1a hash of `bytes`, starting from `h`.
pub open spec fn part_hash(h: u32, bytes: Seq<u8>) -> u32
    decreases bytes.len(),
{
    if bytes.len() == 0 {
        h
    } else {
        (part_hash(h, bytes.drop_last()) ^ (bytes.last() as u32)).wrapping_mul(PART_PRIME)
    }
}

/// A short hash of one key part, for the diagnostic that says which part moved between two runs.
pub fn part(value: &str) -> (h: u32)
    ensures
        h == part_hash(PART_SEED, value.spec_bytes()),
{
    let bytes: &[u8] = value.as_bytes();
    let len = bytes.len();
    assert(bytes@.len() == len);
    let mut hash: u32 = PART_SEED;
    let mut i: usize = 0;
    while i < len
        invariant
            i <= len,
            len == bytes@.len(),
            hash == part_hash(PART_SEED, bytes@.take(i as int)),
        decreases len - i,
    {
        hash = (hash ^ (bytes[i] as u32)).wrapping_mul(PART_PRIME);
        assert(bytes@.take(i as int + 1).drop_last() =~= bytes@.take(i as int));
        i = i + 1;
    }
    assert(bytes@.take(len as int) =~= bytes@);
    hash
}

// ---------------------------------------------------------------------------------------------
// Canonical form of a map
// ---------------------------------------------------------------------------------------------

/// Whether `a` comes no later than `b` in lexicographic order of code points, which is the order
/// `str` compares in.
pub open spec fn chars_le(a: Seq<char>, b: Seq<char>) -> bool
    decreases a.len(),
{
    if a.len() == 0 {
        true
    } else if b.len() == 0 {
        false
    } else if a[0] != b[0] {
        (a[0] as u32) < (b[0] as u32)
    } else {
        chars_le(a.drop_first(), b.drop_first())
    }
}

/// The order of two written-out entries: by key, then by value.
pub open spec fn entry_le(x: (Seq<char>, Seq<char>), y: (Seq<char>, Seq<char>)) -> bool {
    if x.0 == y.0 {
        chars_le(x.1, y.1)
    } else {
        chars_le(x.0, y.0)
    }
}

/// [`entry_le`] as a relation.
pub open spec fn entry_order() -> spec_fn((Seq<char>, Seq<char>), (Seq<char>, Seq<char>)) -> bool {
    |x: (Seq<char>, Seq<char>), y: (Seq<char>, Seq<char>)| entry_le(x, y)
}

/// Each entry with its value written in decimal.
pub open spec fn written(entries: Seq<(Seq<char>, u64)>) -> Seq<(Seq<char>, Seq<char>)> {
    entries.map_values(|e: (Seq<char>, u64)| (e.0, decimal(e.1 as nat)))
}

/// The written-out entries, as `key=value;` one after the other.
pub open spec fn joined(entries: Seq<(Seq<char>, Seq<char>)>) -> Seq<char>
    decreases entries.len(),
{
    if entries.len() == 0 {
        Seq::empty()
    } else {
        joined(entries.drop_last()) + entries.last().0 + seq!['='] + entries.last().1 + seq![';']
    }
}

/// The canonical form of a map given as its entries: the entries sorted by key and then by value,
/// written out flat.
pub open spec fn spec_canonical(entries: Seq<(Seq<char>, u64)>) -> Seq<char> {
    joined(written(entries).sort_by(entry_order()))
}

/// The entries of a slice, by the characters of their keys.
pub open spec fn entries_view(entries: Seq<(String, u64)>) -> Seq<(Seq<char>, u64)> {
    entries.map_values(|e: (String, u64)| (e.0@, e.1))
}

pub(crate) proof fn lemma_chars_le_reflexive(a: Seq<char>)
    ensures
        chars_le(a, a),
    decreases a.len(),
{
    if a.len() > 0 {
        lemma_chars_le_reflexive(a.drop_first());
    }
}

proof fn lemma_chars_le_antisymmetric(a: Seq<char>, b: Seq<char>)
    requires
        chars_le(a, b),
        chars_le(b, a),
    ensures
        a == b,
    decreases a.len(),
{
    if a.len() > 0 && b.len() > 0 {
        lemma_chars_le_antisymmetric(a.drop_first(), b.drop_first());
        assert(a =~= seq![a[0]] + a.drop_first());
        assert(b =~= seq![b[0]] + b.drop_first());
    }
}

pub(crate) proof fn lemma_chars_le_transitive(a: Seq<char>, b: Seq<char>, c: Seq<char>)
    requires
        chars_le(a, b),
        chars_le(b, c),
    ensures
        chars_le(a, c),
    decreases a.len(),
{
    if a.len() > 0 && b.len() > 0 && c.len() > 0 {
        if a[0] == b[0] && b[0] == c[0] {
            lemma_chars_le_transitive(a.drop_first(), b.drop_first(), c.drop_first());
        }
    }
}

pub(crate) proof fn lemma_chars_le_total(a: Seq<char>, b: Seq<char>)
    ensures
        chars_le(a, b) || chars_le(b, a),
    decreases a.len(),
{
    if a.len() > 0 && b.len() > 0 {
        if a[0] == b[0] {
            lemma_chars_le_total(a.drop_first(), b.drop_first());
        } else {
            vstd::utf8::char_u32_cast(a[0], a[0] as u32);
            vstd::utf8::char_u32_cast(b[0], b[0] as u32);
        }
    }
}

/// Entries are totally ordered, which is what makes the sorted order unique.
proof fn lemma_entry_order_total()
    ensures
        total_ordering(entry_order()),
{
    let r = entry_order();
    assert forall|x: (Seq<char>, Seq<char>)| #[trigger] r(x, x) by {
        lemma_chars_le_reflexive(x.1);
    }
    assert forall|x: (Seq<char>, Seq<char>), y: (Seq<char>, Seq<char>)| #[trigger]
        r(x, y) && #[trigger] r(y, x) implies x == y by {
        if x.0 == y.0 {
            lemma_chars_le_antisymmetric(x.1, y.1);
        } else {
            lemma_chars_le_antisymmetric(x.0, y.0);
        }
    }
    assert forall|x: (Seq<char>, Seq<char>), y: (Seq<char>, Seq<char>), z: (Seq<char>, Seq<char>)|
        #[trigger] r(x, y) && #[trigger] r(y, z) implies r(x, z) by {
        if x.0 == y.0 && y.0 == z.0 {
            lemma_chars_le_transitive(x.1, y.1, z.1);
        } else if x.0 == y.0 {
            assert(chars_le(y.0, z.0));
        } else if y.0 == z.0 {
            assert(chars_le(x.0, y.0));
        } else {
            lemma_chars_le_transitive(x.0, y.0, z.0);
            if x.0 == z.0 {
                lemma_chars_le_antisymmetric(x.0, y.0);
            }
        }
    }
    assert forall|x: (Seq<char>, Seq<char>), y: (Seq<char>, Seq<char>)|
        #[trigger] r(x, y) || #[trigger] r(y, x) by {
        if x.0 == y.0 {
            lemma_chars_le_total(x.1, y.1);
        } else {
            lemma_chars_le_total(x.0, y.0);
        }
    }
}

/// Whether `a` comes no later than `b`, by code point.
fn chars_le_exec(a: &Vec<char>, b: &Vec<char>) -> (r: bool)
    ensures
        r == chars_le(a@, b@),
{
    let mut i: usize = 0;
    assert(a@.skip(0) =~= a@);
    assert(b@.skip(0) =~= b@);
    while i < a.len() && i < b.len()
        invariant
            i <= a.len(),
            i <= b.len(),
            chars_le(a@, b@) == chars_le(a@.skip(i as int), b@.skip(i as int)),
        decreases a.len() - i,
    {
        let x = a[i];
        let y = b[i];
        assert(a@.skip(i as int)[0] == x);
        assert(b@.skip(i as int)[0] == y);
        if x != y {
            return (x as u32) < (y as u32);
        }
        assert(a@.skip(i as int).drop_first() =~= a@.skip(i as int + 1));
        assert(b@.skip(i as int).drop_first() =~= b@.skip(i as int + 1));
        i = i + 1;
    }
    i == a.len()
}

/// Whether one written-out entry comes no later than another.
fn entry_le_exec(x: &(Vec<char>, Vec<char>), y: &(Vec<char>, Vec<char>)) -> (r: bool)
    ensures
        r == entry_le((x.0@, x.1@), (y.0@, y.1@)),
{
    let key_le = chars_le_exec(&x.0, &y.0);
    let key_ge = chars_le_exec(&y.0, &x.0);
    if key_le && key_ge {
        proof {
            lemma_chars_le_antisymmetric(x.0@, y.0@);
        }
        chars_le_exec(&x.1, &y.1)
    } else {
        proof {
            if x.0@ == y.0@ {
                lemma_chars_le_reflexive(x.0@);
            }
        }
        key_le
    }
}

/// The characters of a string.
fn chars_of(text: &String) -> (chars: Vec<char>)
    ensures
        chars@ == text@,
{
    let s: &str = text.as_str();
    let n = s.unicode_len();
    let mut chars: Vec<char> = Vec::new();
    let mut i: usize = 0;
    while i < n
        invariant
            i <= n,
            n == s@.len(),
            s@ == text@,
            chars@ == s@.take(i as int),
        decreases n - i,
    {
        let c = s.get_char(i);
        chars.push(c);
        assert(s@.take(i as int + 1) =~= s@.take(i as int).push(c));
        i = i + 1;
    }
    assert(s@.take(n as int) =~= s@);
    chars
}

/// The views of a list of written-out entries.
pub open spec fn pair_views(v: Seq<(Vec<char>, Vec<char>)>) -> Seq<(Seq<char>, Seq<char>)> {
    v.map_values(|e: (Vec<char>, Vec<char>)| (e.0@, e.1@))
}

/// Inserting `x` after every entry that is no later than it keeps a sorted list sorted.
proof fn lemma_insert_sorted(s: Seq<(Seq<char>, Seq<char>)>, x: (Seq<char>, Seq<char>), p: int)
    requires
        total_ordering(entry_order()),
        sorted_by(s, entry_order()),
        0 <= p <= s.len(),
        forall|k: int| 0 <= k < p ==> entry_le(#[trigger] s[k], x),
        p < s.len() ==> !entry_le(s[p], x),
    ensures
        sorted_by(s.insert(p, x), entry_order()),
        s.insert(p, x).to_multiset() == s.to_multiset().insert(x),
{
    let r = entry_order();
    let t = s.insert(p, x);
    assert forall|i: int, j: int| 0 <= i < j < t.len() implies #[trigger] r(t[i], t[j]) by {
        if j < p {
            assert(r(s[i], s[j]));
        } else if j == p {
            assert(entry_le(s[i], x));
        } else if i < p {
            assert(r(s[i], s[j - 1]));
        } else if i == p {
            assert(r(s[p], x) || r(x, s[p]));
            assert(r(x, s[p]));
            if j - 1 > p {
                assert(r(s[p], s[j - 1]));
            }
        } else {
            assert(r(s[i - 1], s[j - 1]));
        }
    }
    assert(t =~= s.take(p).push(x) + s.skip(p));
    assert(s =~= s.take(p) + s.skip(p));
    lemma_multiset_commutative(s.take(p).push(x), s.skip(p));
    lemma_multiset_commutative(s.take(p), s.skip(p));
    broadcast use vstd::seq_lib::group_to_multiset_ensures;

    assert(s.take(p).push(x).to_multiset() =~= s.take(p).to_multiset().insert(x));
    broadcast use vstd::multiset::group_multiset_axioms;

    assert(t.to_multiset() =~= s.to_multiset().insert(x));
}

/// One canonical string for a map-shaped input, independent of how it happens to be ordered.
///
/// Sorted by key and then by value (written in decimal), with the pairs written out flat as
/// `key=value;`: this is a hash input, not something to read back, so the property it needs is
/// that equal maps produce equal strings.
pub fn canonical(entries: &[(String, u64)]) -> (out: String)
    ensures
        out@ == spec_canonical(entries_view(entries@)),
{
    let ghost input = written(entries_view(entries@));
    let ghost r = entry_order();
    proof {
        lemma_entry_order_total();
    }

    let mut sorted: Vec<(Vec<char>, Vec<char>)> = Vec::new();
    assert(pair_views(sorted@) =~= input.take(0));
    let mut i: usize = 0;
    while i < entries.len()
        invariant
            i <= entries.len(),
            input == written(entries_view(entries@)),
            r == entry_order(),
            total_ordering(r),
            sorted_by(pair_views(sorted@), r),
            pair_views(sorted@).to_multiset() == input.take(i as int).to_multiset(),
        decreases entries.len() - i,
    {
        let key = chars_of(&entries[i].0);
        let mut value: Vec<char> = Vec::new();
        push_decimal(entries[i].1, &mut value);
        let item = (key, value);
        let ghost x = (item.0@, item.1@);
        assert(x == input[i as int]);

        let mut p: usize = 0;
        while p < sorted.len() && entry_le_exec(&sorted[p], &item)
            invariant
                p <= sorted.len(),
                x == (item.0@, item.1@),
                forall|k: int| 0 <= k < p ==> entry_le(#[trigger] pair_views(sorted@)[k], x),
            decreases sorted.len() - p,
        {
            assert(pair_views(sorted@)[p as int] == (sorted@[p as int].0@, sorted@[p as int].1@));
            p = p + 1;
        }
        let ghost before = pair_views(sorted@);
        if p < sorted.len() {
            assert(pair_views(sorted@)[p as int] == (sorted@[p as int].0@, sorted@[p as int].1@));
        }
        proof {
            lemma_insert_sorted(before, x, p as int);
        }
        sorted.insert(p, item);
        assert(pair_views(sorted@) =~= before.insert(p as int, x));
        assert(input.take(i as int + 1) =~= input.take(i as int).push(x));
        proof {
            broadcast use vstd::seq_lib::group_to_multiset_ensures;

        }
        i = i + 1;
    }
    assert(input.take(entries.len() as int) =~= input);
    proof {
        input.lemma_sort_by_ensures(r);
        lemma_sorted_unique(pair_views(sorted@), input.sort_by(r), r);
    }

    let mut out = String::new();
    let mut j: usize = 0;
    while j < sorted.len()
        invariant
            j <= sorted.len(),
            out@ == joined(pair_views(sorted@).take(j as int)),
        decreases sorted.len() - j,
    {
        push_chars(&sorted[j].0, &mut out);
        push_char(&mut out, '=');
        push_chars(&sorted[j].1, &mut out);
        push_char(&mut out, ';');
        let ghost t = pair_views(sorted@).take(j as int + 1);
        assert(t.drop_last() =~= pair_views(sorted@).take(j as int));
        assert(out@ =~= joined(t));
        j = j + 1;
    }
    assert(pair_views(sorted@).take(sorted.len() as int) =~= pair_views(sorted@));
    out
}

/// The canonical form does not depend on the order the entries come in: two lists holding the same
/// entries, each as often, give the same string.
pub proof fn lemma_canonical_ignores_order(a: Seq<(Seq<char>, u64)>, b: Seq<(Seq<char>, u64)>)
    requires
        a.to_multiset() == b.to_multiset(),
    ensures
        spec_canonical(a) == spec_canonical(b),
{
    let r = entry_order();
    lemma_entry_order_total();
    lemma_written_multiset(a, b);
    written(a).lemma_sort_by_ensures(r);
    written(b).lemma_sort_by_ensures(r);
    lemma_sorted_unique(written(a).sort_by(r), written(b).sort_by(r), r);
}

/// Writing the values out keeps equal multisets of entries equal.
proof fn lemma_written_multiset(a: Seq<(Seq<char>, u64)>, b: Seq<(Seq<char>, u64)>)
    requires
        a.to_multiset() == b.to_multiset(),
    ensures
        written(a).to_multiset() == written(b).to_multiset(),
{
    let f = |e: (Seq<char>, u64)| (e.0, decimal(e.1 as nat));
    lemma_map_same_multiset(a, b, f);
    assert(written(a) =~= a.map_values(f));
    assert(written(b) =~= b.map_values(f));
}

/// Mapping two lists with the same elements gives two lists with the same elements.
proof fn lemma_map_same_multiset<A, B>(a: Seq<A>, b: Seq<A>, f: spec_fn(A) -> B)
    requires
        a.to_multiset() == b.to_multiset(),
    ensures
        a.map_values(f).to_multiset() == b.map_values(f).to_multiset(),
    decreases a.len(),
{
    broadcast use vstd::seq_lib::group_to_multiset_ensures;
    broadcast use vstd::multiset::group_multiset_axioms;

    if a.len() == 0 {
        assert(a.to_multiset().len() == 0);
        assert(b.to_multiset().len() == 0);
        assert(b.len() == 0);
        assert(a.map_values(f) =~= Seq::<B>::empty());
        assert(b.map_values(f) =~= Seq::<B>::empty());
    } else {
        let x = a.last();
        let a2 = a.drop_last();
        assert(a =~= a2.push(x));
        assert(a.to_multiset().count(x) > 0);
        assert(b.contains(x));
        let i = choose|i: int| 0 <= i < b.len() && b[i] == x;
        let b2 = b.remove(i);
        assert(b2.to_multiset() =~= b.to_multiset().remove(x));
        assert(a2.to_multiset() =~= a.to_multiset().remove(x));
        lemma_map_same_multiset(a2, b2, f);
        let ma = a.map_values(f);
        let mb = b.map_values(f);
        assert(ma =~= a2.map_values(f).push(f(x)));
        assert(mb.remove(i) =~= b2.map_values(f));
        assert(mb.remove(i).to_multiset() =~= mb.to_multiset().remove(f(x)));
        assert(mb.to_multiset().count(f(x)) > 0) by {
            assert(mb[i] == f(x));
            assert(mb.contains(f(x)));
        }
        assert(mb.to_multiset() =~= mb.remove(i).to_multiset().insert(f(x)));
        assert(ma.to_multiset() =~= a2.map_values(f).to_multiset().insert(f(x)));
    }
}

// ---------------------------------------------------------------------------------------------
// Entries and counters
// ---------------------------------------------------------------------------------------------

/// One pipeline's translation, and everything derived from it that the compiler needs.
pub struct Translation {
    pub vert: String,
    pub frag: String,
    /// Which samplers are `samplerCube`s, by the name the pipeline binds them under.
    pub cube_samplers: Vec<(String, bool)>,
    /// Uniform blocks the shaders declared that the pipeline description never listed, with the
    /// binding each was given.
    pub implicit_uniforms: Vec<(String, u32)>,
    /// The size each uniform block's shader-side declaration has.
    pub block_sizes: Vec<(String, u64)>,
}

impl Translation {
    /// The cube flags read as a map: each sampler once, with the flag it was given last.
    pub fn samplers(&self) -> (out: Vec<(String, bool)>)
        ensures
            named(out@) == last_entries(named(self.cube_samplers@)),
    {
        last_entries_of(&self.cube_samplers)
    }

    /// The block sizes read as a map: each block once, with the size it was given last.
    pub fn blocks(&self) -> (out: Vec<(String, u64)>)
        ensures
            named(out@) == last_entries(named(self.block_sizes@)),
    {
        last_entries_of(&self.block_sizes)
    }
}

/// How many translations came from disk and how many were done, and how often that was reported.
pub struct CacheCounters {
    pub hits: u64,
    pub misses: u64,
    /// How many times [`CacheCounters::report_once`] was asked with something to report.
    pub reported: u64,
}

impl CacheCounters {
    /// Nothing counted yet.
    pub fn new() -> (c: CacheCounters)
        ensures
            c.hits == 0,
            c.misses == 0,
            c.reported == 0,
    {
        CacheCounters { hits: 0, misses: 0, reported: 0 }
    }

    /// A translation was read back from disk.
    pub fn hit(&mut self)
        ensures
            final(self).hits == old(self).hits.wrapping_add(1),
            final(self).misses == old(self).misses,
            final(self).reported == old(self).reported,
    {
        self.hits = self.hits.wrapping_add(1);
    }

    /// A translation had to be done, or could not be read back.
    pub fn miss(&mut self)
        ensures
            final(self).misses == old(self).misses.wrapping_add(1),
            final(self).hits == old(self).hits,
            final(self).reported == old(self).reported,
    {
        self.misses = self.misses.wrapping_add(1);
    }

    /// How many translations came from disk and how many were done.
    pub fn stats(&self) -> (counts: (u64, u64))
        ensures
            counts == (self.hits, self.misses),
    {
        (self.hits, self.misses)
    }

    /// Whether to write the line saying what the cache did.
    ///
    /// The numbers are only interesting next to each other, so the first pipelines report it - at
    /// most eight times, each time the total is a multiple of eight - and the rest say nothing.
    /// Nothing is counted while nothing was looked up.
    pub fn report_once(&mut self) -> (report: bool)
        ensures
            ({
                let total = old(self).hits.wrapping_add(old(self).misses);
                &&& final(self).hits == old(self).hits
                &&& final(self).misses == old(self).misses
                &&& total == 0 ==> final(self).reported == old(self).reported && !report
                &&& total != 0 ==> final(self).reported == old(self).reported.wrapping_add(1)
                &&& total != 0 ==> (report <==> (old(self).reported < 8 && total % 8 == 0))
            }),
    {
        let (hits, misses) = self.stats();
        let total = hits.wrapping_add(misses);
        if total == 0 {
            return false;
        }
        let reported = self.reported;
        self.reported = reported.wrapping_add(1);
        reported < 8 && total % 8 == 0
    }
}

} // verus!
