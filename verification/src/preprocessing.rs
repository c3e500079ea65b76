//! The parts of shader preprocessing that decide something: the names the sampler shim gives the two
//! halves of a combined sampler, the bindings a shader's declarations get, and the GLSL a texel-buffer
//! fetch is rewritten into, with what that rewritten fetch reads.
//!
//! wgpu has no texel buffers, so a `samplerBuffer` uniform becomes a read-only storage buffer of
//! `uint` words, and a `texelFetch` of it becomes a byte read out of those words: one texel is one
//! byte, so the word is `index / 4` and the byte inside it is selected by `(index % 4) * 8`. An
//! `isamplerBuffer`'s byte is signed, which `(byte ^ 0x80) - 0x80` extends without depending on how
//! the backend shifts a signed value.

use vstd::prelude::*;
use vstd::string::*;

use crate::lookup::{lookup, lookup_in, named};
use crate::text::{decimal, push_decimal_str};

verus! {

/// What the sampler shim appends to a combined sampler's name for its texture half.
pub const SHIM_TEXTURE_SUFFIX: &'static str = "_wm_texshim";

/// What the sampler shim appends to a combined sampler's name for its sampler half.
pub const SHIM_SAMPLER_SUFFIX: &'static str = "_wm_sampler";

/// The texel type a `*samplerBuffer` uniform was declared with.
#[derive(Clone, Copy, Debug, PartialEq, Eq, Structural)]
pub enum TexelKind {
    /// `isamplerBuffer`: one byte of the buffer is a signed 8-bit value.
    Int,
    /// `usamplerBuffer`: one byte of the buffer is an unsigned 8-bit value.
    Uint,
    /// `samplerBuffer`: a float texel buffer, whose bytes are read as unsigned.
    Float,
}

impl Default for TexelKind {
    fn default() -> (k: Self)
        ensures
            k == TexelKind::Int,
    {
        TexelKind::Int
    }
}

/// The byte at `index`, or zero past the end of the buffer - which is what a robust storage
/// buffer read gives.
pub open spec fn byte_at(buffer: Seq<u8>, index: int) -> u8 {
    if 0 <= index < buffer.len() {
        buffer[index]
    } else {
        0
    }
}

/// What a rewritten fetch of texel `index` reads: the byte, sign-extended for an `isamplerBuffer`.
pub open spec fn spec_texel(buffer: Seq<u8>, index: int, kind: TexelKind) -> i32 {
    let b = byte_at(buffer, index);
    match kind {
        TexelKind::Int => if b >= 128 {
            (b - 256) as i32
        } else {
            b as i32
        },
        _ => b as i32,
    }
}

fn byte_or_zero(buffer: &[u8], index: usize) -> (b: u8)
    ensures
        b == byte_at(buffer@, index as int),
{
    if index < buffer.len() {
        buffer[index]
    } else {
        0
    }
}

proof fn lemma_word_byte(b0: u8, b1: u8, b2: u8, b3: u8, lane: u32)
    by (bit_vector)
    requires
        lane < 4,
    ensures
        ({
            let word = (b0 as u32) | ((b1 as u32) << 8u32) | ((b2 as u32) << 16u32) | ((b3 as u32)
                << 24u32);
            let byte = (word >> (lane * 8)) & 0xFF;
            &&& lane == 0 ==> byte == b0 as u32
            &&& lane == 1 ==> byte == b1 as u32
            &&& lane == 2 ==> byte == b2 as u32
            &&& lane == 3 ==> byte == b3 as u32
        }),
{
}

proof fn lemma_sign_extend(byte: u32)
    by (bit_vector)
    requires
        byte < 256,
    ensures
        (((byte as i32) ^ 0x80i32) - 0x80i32) == (if byte >= 128 {
            byte - 256
        } else {
            byte as int
        }),
{
}

/// What a rewritten fetch of texel `index` reads out of the buffer's bytes, computed the way the
/// rewritten shader does: the little-endian word at `index / 4`, shifted by `(index % 4) * 8`,
/// masked to a byte, and sign-extended for an `isamplerBuffer`.
pub fn read_texel(buffer: &[u8], index: usize, kind: TexelKind) -> (value: i32)
    ensures
        value == spec_texel(buffer@, index as int, kind),
{
    let base = index & !3usize;
    let low = index & 3usize;
    assert(base <= index && index - base == low && low < 4 && base + 3 == (index | 3usize)) by (bit_vector)
        requires
            base == index & !3usize,
            low == index & 3usize,
    ;
    let lane = low as u32;
    let b0 = byte_or_zero(buffer, base);
    let b1 = byte_or_zero(buffer, base + 1);
    let b2 = byte_or_zero(buffer, base + 2);
    let b3 = byte_or_zero(buffer, base + 3);
    let word = (b0 as u32) | ((b1 as u32) << 8u32) | ((b2 as u32) << 16u32) | ((b3 as u32) << 24u32);
    let byte = (word >> (lane * 8)) & 0xFF;
    proof {
        lemma_word_byte(b0, b1, b2, b3, lane);
    }
    if lane == 0 {
        assert(byte == b0 as u32);
    } else if lane == 1 {
        assert(byte == b1 as u32);
    } else if lane == 2 {
        assert(byte == b2 as u32);
    } else {
        assert(byte == b3 as u32);
    }
    assert(byte == byte_at(buffer@, index as int) as u32);
    match kind {
        TexelKind::Int => {
            proof {
                lemma_sign_extend(byte);
            }
            ((byte as i32) ^ 0x80) - 0x80
        },
        _ => byte as i32,
    }
}

/// The GLSL a `texelFetch(buffer, index)` of a rewritten texel buffer becomes.
pub open spec fn spec_fetch_expression(buffer: Seq<char>, index: Seq<char>, kind: TexelKind) -> Seq<
    char,
> {
    let masked = "("@ + buffer + ".inner[uint("@ + index + ") >> 2u] >> ((uint("@ + index
        + ") & 3u) << 3u)) & 0xFFu"@;
    let byte = match kind {
        TexelKind::Int => "((int("@ + masked + ") ^ 0x80) - 0x80)"@,
        _ => "int("@ + masked + ")"@,
    };
    "ivec4("@ + byte + ", 0, 0, 1)"@
}

/// The GLSL a `texelFetch` of the rewritten texel buffer `buffer` at the GLSL expression `index`
/// becomes: an `ivec4` whose first component is the byte, the rest zero and alpha one.
pub fn fetch_expression(buffer: &str, index: &str, kind: TexelKind) -> (glsl: String)
    ensures
        glsl@ == spec_fetch_expression(buffer@, index@, kind),
{
    let mut masked = String::from_str("(");
    masked.append(buffer);
    masked.append(".inner[uint(");
    masked.append(index);
    masked.append(") >> 2u] >> ((uint(");
    masked.append(index);
    masked.append(") & 3u) << 3u)) & 0xFFu");
    let mut byte = match kind {
        TexelKind::Int => String::from_str("((int("),
        _ => String::from_str("int("),
    };
    byte.append(masked.as_str());
    match kind {
        TexelKind::Int => byte.append(") ^ 0x80) - 0x80)"),
        _ => byte.append(")"),
    }
    let mut glsl = String::from_str("ivec4(");
    glsl.append(byte.as_str());
    glsl.append(", 0, 0, 1)");
    glsl
}

/// The storage buffer declaration a texel buffer uniform becomes.
pub open spec fn spec_buffer_declaration(name: Seq<char>, set: u32, binding: u32) -> Seq<char> {
    "layout(std430, set = "@ + decimal(set as nat) + ", binding = "@ + decimal(binding as nat)
        + ") readonly buffer "@ + name + "Block { uint[] inner; } "@ + name + ";"@
}

/// The storage buffer declaration the texel buffer uniform `name` becomes, at the set and binding
/// its plan gave it.
pub fn buffer_declaration(name: &str, set: u32, binding: u32) -> (glsl: String)
    ensures
        glsl@ == spec_buffer_declaration(name@, set, binding),
{
    let mut glsl = String::from_str("layout(std430, set = ");
    push_decimal_str(set as u64, &mut glsl);
    glsl.append(", binding = ");
    push_decimal_str(binding as u64, &mut glsl);
    glsl.append(") readonly buffer ");
    glsl.append(name);
    glsl.append("Block { uint[] inner; } ");
    glsl.append(name);
    glsl.append(";");
    glsl
}

// ---------------------------------------------------------------------------------------------
// Bindings of a shader's declarations
// ---------------------------------------------------------------------------------------------

/// Whether two strings hold the same characters.
pub fn same_text(a: &str, b: &str) -> (r: bool)
    ensures
        r == (a@ == b@),
{
    let x = String::from_str(a);
    let y = String::from_str(b);
    x == y
}

/// Whether `text` ends with `suffix`.
pub open spec fn has_suffix(text: Seq<char>, suffix: Seq<char>) -> bool {
    suffix.len() <= text.len() && text.subrange(text.len() - suffix.len(), text.len() as int)
        == suffix
}

/// Whether `text` ends with `suffix`.
pub fn ends_with(text: &str, suffix: &str) -> (r: bool)
    ensures
        r == has_suffix(text@, suffix@),
{
    let n = text.unicode_len();
    let m = suffix.unicode_len();
    if m > n {
        return false;
    }
    let start = n - m;
    let mut i: usize = 0;
    while i < m
        invariant
            i <= m,
            m <= n,
            n == text@.len(),
            m == suffix@.len(),
            start == n - m,
            forall|k: int| 0 <= k < i ==> text@[start + k] == suffix@[k],
        decreases m - i,
    {
        if text.get_char(start + i) != suffix.get_char(i) {
            assert(text@.subrange(start as int, n as int)[i as int] != suffix@[i as int]);
            return false;
        }
        i = i + 1;
    }
    assert(text@.subrange(start as int, n as int) =~= suffix@);
    true
}

/// Whether `name` is one half of a combined sampler the shim split, which the pipeline only knew
/// by the combined name.
pub fn is_shim_half(name: &str) -> (r: bool)
    ensures
        r == (has_suffix(name@, SHIM_TEXTURE_SUFFIX@) || has_suffix(name@, SHIM_SAMPLER_SUFFIX@)),
{
    ends_with(name, SHIM_TEXTURE_SUFFIX) || ends_with(name, SHIM_SAMPLER_SUFFIX)
}

/// Whether `name` is one of the uniform blocks the GL backend binds straight off the shader:
/// `Projection`, `Lighting`, `Fog` or `Globals`. Any other block a shader declares that the
/// pipeline never listed is worth a warning.
pub fn is_built_in(name: &str) -> (r: bool)
    ensures
        r == (name@ == "Projection"@ || name@ == "Lighting"@ || name@ == "Fog"@ || name@
            == "Globals"@),
{
    same_text(name, "Projection") || same_text(name, "Lighting") || same_text(name, "Fog")
        || same_text(name, "Globals")
}

/// The binding after the highest one of a map's entries, or zero for an empty map.
pub open spec fn next_binding(entries: Seq<(Seq<char>, (u32, u32))>) -> nat
    decreases entries.len(),
{
    if entries.len() == 0 {
        0
    } else {
        let rest = next_binding(entries.drop_last());
        let here = entries.last().1.1 + 1;
        if here > rest {
            here as nat
        } else {
            rest
        }
    }
}

/// Whether every binding of a map's entries has a binding after it.
pub open spec fn bindings_fit(entries: Seq<(Seq<char>, (u32, u32))>) -> bool {
    forall|i: int| 0 <= i < entries.len() ==> (#[trigger] entries[i]).1.1 < u32::MAX
}

/// The set and binding each declaration of a shader is annotated with, by name, as the entries of
/// a map: a name that occurs twice means its last entry.
pub struct UniformSets {
    pub entries: Vec<(String, (u32, u32))>,
}

impl UniformSets {
    /// The binding after the highest one in the map, or zero for an empty map.
    fn next(&self) -> (n: u32)
        requires
            bindings_fit(named(self.entries@)),
        ensures
            n == next_binding(named(self.entries@)),
    {
        let ghost v = named(self.entries@);
        let mut next: u32 = 0;
        let mut i: usize = 0;
        while i < self.entries.len()
            invariant
                i <= self.entries.len(),
                v == named(self.entries@),
                bindings_fit(v),
                next == next_binding(v.take(i as int)),
            decreases self.entries.len() - i,
        {
            assert(v[i as int].1.1 < u32::MAX);
            let here = self.entries[i].1.1 + 1;
            if here > next {
                next = here;
            }
            assert(v.take(i as int + 1).drop_last() =~= v.take(i as int));
            i = i + 1;
        }
        assert(v.take(self.entries.len() as int) =~= v);
        next
    }

    /// The set and binding for `name`, inventing one if the pipeline never declared it.
    ///
    /// A miss gets set 0 and the binding after every binding the map holds, which cannot collide
    /// with anything already there, and is remembered under `name`.
    pub fn binding_for(&mut self, name: &String) -> (location: (u32, u32))
        requires
            bindings_fit(named(old(self).entries@)),
        ensures
            match lookup(named(old(self).entries@), name@) {
                Some(found) => location == found && final(self).entries@ == old(self).entries@,
                None => location == (0u32, next_binding(named(old(self).entries@)) as u32)
                    && named(final(self).entries@) == named(old(self).entries@).push(
                    (name@, location),
                ),
            },
    {
        match lookup_in(&self.entries, name) {
            Some(found) => found,
            None => {
                let next = self.next();
                let location = (0u32, next);
                let ghost before = named(self.entries@);
                self.entries.push((name.clone(), location));
                assert(named(self.entries@) =~= before.push((name@, location)));
                location
            },
        }
    }
}

/// What adding the implicit uniform blocks does, from the declared names still to look at: each
/// name the map does not hold yet gets set 0 and the next binding, in order, and is listed.
pub open spec fn implicit_from(
    entries: Seq<(Seq<char>, (u32, u32))>,
    declared: Seq<Seq<char>>,
    next: nat,
) -> (Seq<(Seq<char>, (u32, u32))>, Seq<(Seq<char>, u32)>)
    decreases declared.len(),
{
    if declared.len() == 0 {
        (entries, Seq::empty())
    } else {
        let name = declared[0];
        let rest = declared.drop_first();
        if lookup(entries, name) is Some {
            implicit_from(entries, rest, next)
        } else {
            let after = implicit_from(entries.push((name, (0u32, next as u32))), rest, next + 1);
            (after.0, seq![(name, next as u32)] + after.1)
        }
    }
}

/// Gives every uniform block the shaders declare a binding, adding the ones the map does not hold.
///
/// `declared` is every uniform block the two stages declare at the top level, in order. The blocks
/// the map holds are left alone; the others are bound in set 0 after everything the map holds, one
/// binding each, and returned with their bindings.
pub fn add_implicit_uniforms(declared: &Vec<String>, locations: &mut UniformSets) -> (added: Vec<
    (String, u32),
>)
    requires
        bindings_fit(named(old(locations).entries@)),
        next_binding(named(old(locations).entries@)) + declared@.len() < u32::MAX,
    ensures
        ({
            let result = implicit_from(
                named(old(locations).entries@),
                declared@.map_values(|d: String| d@),
                next_binding(named(old(locations).entries@)),
            );
            &&& named(final(locations).entries@) == result.0
            &&& named(added@) == result.1
        }),
{
    let ghost names = declared@.map_values(|d: String| d@);
    let ghost goal = implicit_from(
        named(locations.entries@),
        names,
        next_binding(named(locations.entries@)),
    );
    let mut next = locations.next();
    let mut added: Vec<(String, u32)> = Vec::new();
    let mut i: usize = 0;
    assert(names.skip(0) =~= names);
    assert(named(added@) + goal.1 =~= goal.1);
    while i < declared.len()
        invariant
            i <= declared.len(),
            names == declared@.map_values(|d: String| d@),
            next + (declared@.len() - i) < u32::MAX,
            ({
                let rest = implicit_from(named(locations.entries@), names.skip(i as int), next as nat);
                &&& rest.0 == goal.0
                &&& named(added@) + rest.1 == goal.1
            }),
        decreases declared.len() - i,
    {
        let name = &declared[i];
        let ghost rest = names.skip(i as int);
        assert(rest[0] == name@);
        assert(rest.drop_first() =~= names.skip(i as int + 1));
        let ghost before_added = named(added@);
        let ghost before_entries = named(locations.entries@);
        match lookup_in(&locations.entries, name) {
            Some(_) => {},
            None => {
                locations.entries.push((name.clone(), (0u32, next)));
                assert(named(locations.entries@) =~= before_entries.push((name@, (0u32, next))));
                added.push((name.clone(), next));
                assert(named(added@) =~= before_added.push((name@, next)));
                let ghost after = implicit_from(
                    named(locations.entries@),
                    names.skip(i as int + 1),
                    next as nat + 1,
                );
                assert(named(added@) + after.1 =~= before_added + (seq![(name@, next)] + after.1));
                next = next + 1;
            },
        }
        i = i + 1;
    }
    assert(names.skip(declared.len() as int) =~= Seq::<Seq<char>>::empty());
    assert(named(added@) =~= named(added@) + Seq::<(Seq<char>, u32)>::empty());
    added
}

} // verus!
