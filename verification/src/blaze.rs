//! Binding plans: the one description a pipeline's layouts, shader annotations and bind groups are
//! all derived from, and what a draw's bindings fold to.
//!
//! The three things that have to agree about a binding - the wgpu `BindGroupLayout`, the GLSL
//! `layout(binding = N)` annotations, and the entries and dynamic offsets of the bind group built at
//! draw time - are all read off a [`BindGroupPlan`], which numbers a pipeline's bindings once. A draw
//! arrives as one table of slots, slot `i` being the `i`-th binding of the plan; what the slots fold
//! to is the key its bind groups are cached under.

use vstd::prelude::*;

use vstd::string::*;

use crate::lookup::{lookup, lookup_in, named};
use crate::preprocessing::{SHIM_SAMPLER_SUFFIX, SHIM_TEXTURE_SUFFIX};
use crate::adapter::{trim, trimmed};
use crate::text::push_chars;

verus! {

/// How many bindings one draw may carry.
pub const MAX_DRAW_BINDINGS: usize = 32;

/// How many vertex buffer slots a draw may carry.
pub const MAX_VERTEX_BUFFERS: usize = 8;

/// How many bind group sets a plan may have.
pub const MAX_DRAW_SETS: usize = 8;

/// What a draw's binding slot holds: nothing.
pub const DRAW_BINDING_NONE: u32 = 0;

/// What a draw's binding slot holds: a buffer.
pub const DRAW_BINDING_BUFFER: u32 = 1;

/// What a draw's binding slot holds: a texture view.
pub const DRAW_BINDING_TEXTURE: u32 = 2;

/// What a draw's binding slot holds: a sampler.
pub const DRAW_BINDING_SAMPLER: u32 = 3;

/// The bit that tells a JVM-numbered combination apart from a folded key.
pub const COMBO_TAG: u64 = 0x8000_0000_0000_0000;

/// The multiplier of [`fold`].
pub const FOLD_MULTIPLIER: u64 = 0x9E37_79B9_7F4A_7C15;

/// What a binding of a pipeline description is.
#[derive(Clone, Copy, Debug, PartialEq, Eq, Structural)]
pub enum UniformType {
    TexelBuffer,
    UBO,
    Sampler,
}

/// The number the JVM passes for each [`UniformType`].
pub open spec fn spec_uniform_type_code(v: UniformType) -> u64 {
    match v {
        UniformType::TexelBuffer => 0,
        UniformType::UBO => 1,
        UniformType::Sampler => 2,
    }
}

impl UniformType {
    /// The variant the JVM's number stands for, if it stands for one.
    pub fn from_raw(raw: u64) -> (r: Option<UniformType>)
        ensures
            match r {
                Some(v) => spec_uniform_type_code(v) == raw,
                None => raw < 0 || raw > 2,
            },
    {
        match raw {
            0 => Some(UniformType::TexelBuffer),
            1 => Some(UniformType::UBO),
            2 => Some(UniformType::Sampler),
            _ => None,
        }
    }

    /// The number the JVM passes for this variant.
    pub fn raw(self) -> (n: u64)
        ensures
            n == spec_uniform_type_code(self),
    {
        match self {
            UniformType::TexelBuffer => 0,
            UniformType::UBO => 1,
            UniformType::Sampler => 2,
        }
    }
}

/// A blend factor, as the JVM names them.
#[derive(Clone, Copy, Debug, PartialEq, Eq, Structural)]
pub enum BlendFactor {
    Zero,
    One,
    SrcColor,
    OneMinusSrcColor,
    DstColor,
    OneMinusDstColor,
    SrcAlpha,
    OneMinusSrcAlpha,
    DstAlpha,
    OneMinusDstAlpha,
    SrcAlphaSaturate,
    Constant,
    OneMinusConstant,
}

/// The number the JVM passes for each [`BlendFactor`].
pub open spec fn spec_blend_factor_code(v: BlendFactor) -> u64 {
    match v {
        BlendFactor::Zero => 0,
        BlendFactor::One => 1,
        BlendFactor::SrcColor => 2,
        BlendFactor::OneMinusSrcColor => 3,
        BlendFactor::DstColor => 4,
        BlendFactor::OneMinusDstColor => 5,
        BlendFactor::SrcAlpha => 6,
        BlendFactor::OneMinusSrcAlpha => 7,
        BlendFactor::DstAlpha => 8,
        BlendFactor::OneMinusDstAlpha => 9,
        BlendFactor::SrcAlphaSaturate => 10,
        BlendFactor::Constant => 11,
        BlendFactor::OneMinusConstant => 12,
    }
}

impl BlendFactor {
    /// The variant the JVM's number stands for, if it stands for one.
    pub fn from_raw(raw: u64) -> (r: Option<BlendFactor>)
        ensures
            match r {
                Some(v) => spec_blend_factor_code(v) == raw,
                None => raw < 0 || raw > 12,
            },
    {
        match raw {
            0 => Some(BlendFactor::Zero),
            1 => Some(BlendFactor::One),
            2 => Some(BlendFactor::SrcColor),
            3 => Some(BlendFactor::OneMinusSrcColor),
            4 => Some(BlendFactor::DstColor),
            5 => Some(BlendFactor::OneMinusDstColor),
            6 => Some(BlendFactor::SrcAlpha),
            7 => Some(BlendFactor::OneMinusSrcAlpha),
            8 => Some(BlendFactor::DstAlpha),
            9 => Some(BlendFactor::OneMinusDstAlpha),
            10 => Some(BlendFactor::SrcAlphaSaturate),
            11 => Some(BlendFactor::Constant),
            12 => Some(BlendFactor::OneMinusConstant),
            _ => None,
        }
    }

    /// The number the JVM passes for this variant.
    pub fn raw(self) -> (n: u64)
        ensures
            n == spec_blend_factor_code(self),
    {
        match self {
            BlendFactor::Zero => 0,
            BlendFactor::One => 1,
            BlendFactor::SrcColor => 2,
            BlendFactor::OneMinusSrcColor => 3,
            BlendFactor::DstColor => 4,
            BlendFactor::OneMinusDstColor => 5,
            BlendFactor::SrcAlpha => 6,
            BlendFactor::OneMinusSrcAlpha => 7,
            BlendFactor::DstAlpha => 8,
            BlendFactor::OneMinusDstAlpha => 9,
            BlendFactor::SrcAlphaSaturate => 10,
            BlendFactor::Constant => 11,
            BlendFactor::OneMinusConstant => 12,
        }
    }
}

/// A depth comparison, as the JVM names them.
#[derive(Clone, Copy, Debug, PartialEq, Eq, Structural)]
pub enum CompareFunction {
    Never,
    Less,
    Equal,
    LessEqual,
    Greater,
    NotEqual,
    GreaterEqual,
    Always,
}

/// The number the JVM passes for each [`CompareFunction`].
pub open spec fn spec_compare_function_code(v: CompareFunction) -> u64 {
    match v {
        CompareFunction::Never => 0,
        CompareFunction::Less => 1,
        CompareFunction::Equal => 2,
        CompareFunction::LessEqual => 3,
        CompareFunction::Greater => 4,
        CompareFunction::NotEqual => 5,
        CompareFunction::GreaterEqual => 6,
        CompareFunction::Always => 7,
    }
}

impl CompareFunction {
    /// The variant the JVM's number stands for, if it stands for one.
    pub fn from_raw(raw: u64) -> (r: Option<CompareFunction>)
        ensures
            match r {
                Some(v) => spec_compare_function_code(v) == raw,
                None => raw < 0 || raw > 7,
            },
    {
        match raw {
            0 => Some(CompareFunction::Never),
            1 => Some(CompareFunction::Less),
            2 => Some(CompareFunction::Equal),
            3 => Some(CompareFunction::LessEqual),
            4 => Some(CompareFunction::Greater),
            5 => Some(CompareFunction::NotEqual),
            6 => Some(CompareFunction::GreaterEqual),
            7 => Some(CompareFunction::Always),
            _ => None,
        }
    }

    /// The number the JVM passes for this variant.
    pub fn raw(self) -> (n: u64)
        ensures
            n == spec_compare_function_code(self),
    {
        match self {
            CompareFunction::Never => 0,
            CompareFunction::Less => 1,
            CompareFunction::Equal => 2,
            CompareFunction::LessEqual => 3,
            CompareFunction::Greater => 4,
            CompareFunction::NotEqual => 5,
            CompareFunction::GreaterEqual => 6,
            CompareFunction::Always => 7,
        }
    }
}

/// What the vertices of a draw make, as the JVM names it.
#[derive(Clone, Copy, Debug, PartialEq, Eq, Structural)]
pub enum PrimitiveTopology {
    Lines,
    DebugLineStrip,
    Points,
    Tris,
    TriangleStrip,
    TriangleFan,
    Quads,
}

/// The number the JVM passes for each [`PrimitiveTopology`].
pub open spec fn spec_primitive_topology_code(v: PrimitiveTopology) -> u64 {
    match v {
        PrimitiveTopology::Lines => 1,
        PrimitiveTopology::DebugLineStrip => 2,
        PrimitiveTopology::Points => 3,
        PrimitiveTopology::Tris => 4,
        PrimitiveTopology::TriangleStrip => 5,
        PrimitiveTopology::TriangleFan => 6,
        PrimitiveTopology::Quads => 7,
    }
}

impl PrimitiveTopology {
    /// The variant the JVM's number stands for, if it stands for one.
    pub fn from_raw(raw: u64) -> (r: Option<PrimitiveTopology>)
        ensures
            match r {
                Some(v) => spec_primitive_topology_code(v) == raw,
                None => raw < 1 || raw > 7,
            },
    {
        match raw {
            1 => Some(PrimitiveTopology::Lines),
            2 => Some(PrimitiveTopology::DebugLineStrip),
            3 => Some(PrimitiveTopology::Points),
            4 => Some(PrimitiveTopology::Tris),
            5 => Some(PrimitiveTopology::TriangleStrip),
            6 => Some(PrimitiveTopology::TriangleFan),
            7 => Some(PrimitiveTopology::Quads),
            _ => None,
        }
    }

    /// The number the JVM passes for this variant.
    pub fn raw(self) -> (n: u64)
        ensures
            n == spec_primitive_topology_code(self),
    {
        match self {
            PrimitiveTopology::Lines => 1,
            PrimitiveTopology::DebugLineStrip => 2,
            PrimitiveTopology::Points => 3,
            PrimitiveTopology::Tris => 4,
            PrimitiveTopology::TriangleStrip => 5,
            PrimitiveTopology::TriangleFan => 6,
            PrimitiveTopology::Quads => 7,
        }
    }
}

/// A texel or vertex attribute format, as the JVM names it.
#[allow(non_camel_case_types)]
#[derive(Clone, Copy, Debug, PartialEq, Eq, Structural)]
pub enum GpuFormat {
    NoFormat,
    R8_UNORM,
    R8_SNORM,
    RG8_UNORM,
    RG8_SNORM,
    RGB8_UNORM,
    RGB8_SNORM,
    RGBA8_UNORM,
    RGBA8_SNORM,
    R16_UNORM,
    R16_SNORM,
    RG16_UNORM,
    RG16_SNORM,
    RGB16_UNORM,
    RGB16_SNORM,
    RGBA16_UNORM,
    RGBA16_SNORM,
    R8_UINT,
    R8_SINT,
    RG8_UINT,
    RG8_SINT,
    RGB8_UINT,
    RGB8_SINT,
    RGBA8_UINT,
    RGBA8_SINT,
    R16_UINT,
    R16_SINT,
    RG16_UINT,
    RG16_SINT,
    RGB16_UINT,
    RGB16_SINT,
    RGBA16_UINT,
    RGBA16_SINT,
    R32_UINT,
    R32_SINT,
    RG32_UINT,
    RG32_SINT,
    RGB32_UINT,
    RGB32_SINT,
    RGBA32_UINT,
    RGBA32_SINT,
    R16_FLOAT,
    RG16_FLOAT,
    RGB16_FLOAT,
    RGBA16_FLOAT,
    R32_FLOAT,
    RG32_FLOAT,
    RGB32_FLOAT,
    RGBA32_FLOAT,
    RGB10A2_UNORM,
    RGB10A2_UINT,
    RG11B10_FLOAT,
    D32_FLOAT,
    D32_FLOAT_S8_UINT,
    D24_UNORM_S8_UINT,
    D16_UNORM,
    S8_UINT,
}

/// What a format's channels hold.
pub enum ChannelKind {
    Unorm,
    Snorm,
    Uint,
    Sint,
    Float,
}

/// What a format is made of.
pub enum FormatShape {
    /// No format at all.
    Absent,
    /// `count` channels of one kind, each `bits` wide.
    Channels(ChannelKind, u32, u32),
    /// Channels of one kind packed at different widths, the first to the fourth (zero where there
    /// is no fourth).
    Packed(ChannelKind, u32, u32, u32, u32),
    /// A depth buffer of the given kind and width (zero for none) and a stencil of the given width
    /// (zero for none).
    DepthStencil(ChannelKind, u32, u32),
}

/// What each format is, as its name says: the channels it has, how wide they are and what they
/// hold.
pub open spec fn format_shape(f: GpuFormat) -> FormatShape {
    match f {
        GpuFormat::NoFormat => FormatShape::Absent,
        GpuFormat::R8_UNORM => FormatShape::Channels(ChannelKind::Unorm, 8, 1),
        GpuFormat::R8_SNORM => FormatShape::Channels(ChannelKind::Snorm, 8, 1),
        GpuFormat::RG8_UNORM => FormatShape::Channels(ChannelKind::Unorm, 8, 2),
        GpuFormat::RG8_SNORM => FormatShape::Channels(ChannelKind::Snorm, 8, 2),
        GpuFormat::RGB8_UNORM => FormatShape::Channels(ChannelKind::Unorm, 8, 3),
        GpuFormat::RGB8_SNORM => FormatShape::Channels(ChannelKind::Snorm, 8, 3),
        GpuFormat::RGBA8_UNORM => FormatShape::Channels(ChannelKind::Unorm, 8, 4),
        GpuFormat::RGBA8_SNORM => FormatShape::Channels(ChannelKind::Snorm, 8, 4),
        GpuFormat::R16_UNORM => FormatShape::Channels(ChannelKind::Unorm, 16, 1),
        GpuFormat::R16_SNORM => FormatShape::Channels(ChannelKind::Snorm, 16, 1),
        GpuFormat::RG16_UNORM => FormatShape::Channels(ChannelKind::Unorm, 16, 2),
        GpuFormat::RG16_SNORM => FormatShape::Channels(ChannelKind::Snorm, 16, 2),
        GpuFormat::RGB16_UNORM => FormatShape::Channels(ChannelKind::Unorm, 16, 3),
        GpuFormat::RGB16_SNORM => FormatShape::Channels(ChannelKind::Snorm, 16, 3),
        GpuFormat::RGBA16_UNORM => FormatShape::Channels(ChannelKind::Unorm, 16, 4),
        GpuFormat::RGBA16_SNORM => FormatShape::Channels(ChannelKind::Snorm, 16, 4),
        GpuFormat::R8_UINT => FormatShape::Channels(ChannelKind::Uint, 8, 1),
        GpuFormat::R8_SINT => FormatShape::Channels(ChannelKind::Sint, 8, 1),
        GpuFormat::RG8_UINT => FormatShape::Channels(ChannelKind::Uint, 8, 2),
        GpuFormat::RG8_SINT => FormatShape::Channels(ChannelKind::Sint, 8, 2),
        GpuFormat::RGB8_UINT => FormatShape::Channels(ChannelKind::Uint, 8, 3),
        GpuFormat::RGB8_SINT => FormatShape::Channels(ChannelKind::Sint, 8, 3),
        GpuFormat::RGBA8_UINT => FormatShape::Channels(ChannelKind::Uint, 8, 4),
        GpuFormat::RGBA8_SINT => FormatShape::Channels(ChannelKind::Sint, 8, 4),
        GpuFormat::R16_UINT => FormatShape::Channels(ChannelKind::Uint, 16, 1),
        GpuFormat::R16_SINT => FormatShape::Channels(ChannelKind::Sint, 16, 1),
        GpuFormat::RG16_UINT => FormatShape::Channels(ChannelKind::Uint, 16, 2),
        GpuFormat::RG16_SINT => FormatShape::Channels(ChannelKind::Sint, 16, 2),
        GpuFormat::RGB16_UINT => FormatShape::Channels(ChannelKind::Uint, 16, 3),
        GpuFormat::RGB16_SINT => FormatShape::Channels(ChannelKind::Sint, 16, 3),
        GpuFormat::RGBA16_UINT => FormatShape::Channels(ChannelKind::Uint, 16, 4),
        GpuFormat::RGBA16_SINT => FormatShape::Channels(ChannelKind::Sint, 16, 4),
        GpuFormat::R32_UINT => FormatShape::Channels(ChannelKind::Uint, 32, 1),
        GpuFormat::R32_SINT => FormatShape::Channels(ChannelKind::Sint, 32, 1),
        GpuFormat::RG32_UINT => FormatShape::Channels(ChannelKind::Uint, 32, 2),
        GpuFormat::RG32_SINT => FormatShape::Channels(ChannelKind::Sint, 32, 2),
        GpuFormat::RGB32_UINT => FormatShape::Channels(ChannelKind::Uint, 32, 3),
        GpuFormat::RGB32_SINT => FormatShape::Channels(ChannelKind::Sint, 32, 3),
        GpuFormat::RGBA32_UINT => FormatShape::Channels(ChannelKind::Uint, 32, 4),
        GpuFormat::RGBA32_SINT => FormatShape::Channels(ChannelKind::Sint, 32, 4),
        GpuFormat::R16_FLOAT => FormatShape::Channels(ChannelKind::Float, 16, 1),
        GpuFormat::RG16_FLOAT => FormatShape::Channels(ChannelKind::Float, 16, 2),
        GpuFormat::RGB16_FLOAT => FormatShape::Channels(ChannelKind::Float, 16, 3),
        GpuFormat::RGBA16_FLOAT => FormatShape::Channels(ChannelKind::Float, 16, 4),
        GpuFormat::R32_FLOAT => FormatShape::Channels(ChannelKind::Float, 32, 1),
        GpuFormat::RG32_FLOAT => FormatShape::Channels(ChannelKind::Float, 32, 2),
        GpuFormat::RGB32_FLOAT => FormatShape::Channels(ChannelKind::Float, 32, 3),
        GpuFormat::RGBA32_FLOAT => FormatShape::Channels(ChannelKind::Float, 32, 4),
        GpuFormat::RGB10A2_UNORM => FormatShape::Packed(ChannelKind::Unorm, 10, 10, 10, 2),
        GpuFormat::RGB10A2_UINT => FormatShape::Packed(ChannelKind::Uint, 10, 10, 10, 2),
        GpuFormat::RG11B10_FLOAT => FormatShape::Packed(ChannelKind::Float, 11, 11, 10, 0),
        GpuFormat::D32_FLOAT => FormatShape::DepthStencil(ChannelKind::Float, 32, 0),
        GpuFormat::D32_FLOAT_S8_UINT => FormatShape::DepthStencil(ChannelKind::Float, 32, 8),
        GpuFormat::D24_UNORM_S8_UINT => FormatShape::DepthStencil(ChannelKind::Unorm, 24, 8),
        GpuFormat::D16_UNORM => FormatShape::DepthStencil(ChannelKind::Unorm, 16, 0),
        GpuFormat::S8_UINT => FormatShape::DepthStencil(ChannelKind::Uint, 0, 8),
    }
}

/// The format the JVM means by a number, from how it numbers them: zero for none; 1 to 16 the
/// normalized 8- and 16-bit formats, unsigned before signed, one to four channels; 17 to 40 the
/// integer 8-, 16- and 32-bit ones, likewise; 41 to 48 the 16- and 32-bit floats, one to four
/// channels; then the three packed formats, and the depth and stencil formats from 52 to 56.
pub open spec fn jvm_format_shape(code: u64) -> FormatShape {
    let signed = (code - 1) % 2 == 1;
    if code == 0 {
        FormatShape::Absent
    } else if code <= 16 {
        let k = code - 1;
        FormatShape::Channels(
            if signed { ChannelKind::Snorm } else { ChannelKind::Unorm },
            if k < 8 { 8 } else { 16 },
            ((k % 8) / 2 + 1) as u32,
        )
    } else if code <= 40 {
        let k = code - 17;
        FormatShape::Channels(
            if signed { ChannelKind::Sint } else { ChannelKind::Uint },
            if k < 8 { 8 } else if k < 16 { 16 } else { 32 },
            ((k % 8) / 2 + 1) as u32,
        )
    } else if code <= 48 {
        let k = code - 41;
        FormatShape::Channels(ChannelKind::Float, if k < 4 { 16 } else { 32 }, (k % 4 + 1) as u32)
    } else if code == 49 {
        FormatShape::Packed(ChannelKind::Unorm, 10, 10, 10, 2)
    } else if code == 50 {
        FormatShape::Packed(ChannelKind::Uint, 10, 10, 10, 2)
    } else if code == 51 {
        FormatShape::Packed(ChannelKind::Float, 11, 11, 10, 0)
    } else if code == 52 {
        FormatShape::DepthStencil(ChannelKind::Float, 32, 0)
    } else if code == 53 {
        FormatShape::DepthStencil(ChannelKind::Float, 32, 8)
    } else if code == 54 {
        FormatShape::DepthStencil(ChannelKind::Unorm, 24, 8)
    } else if code == 55 {
        FormatShape::DepthStencil(ChannelKind::Unorm, 16, 0)
    } else {
        FormatShape::DepthStencil(ChannelKind::Uint, 0, 8)
    }
}

/// Every format is passed as the number the JVM gives a format of its shape, and every number the
/// JVM passes reads back as the format of that shape: the two sides agree on what each number
/// means.
pub proof fn lemma_format_codes_follow_the_jvm(f: GpuFormat, raw: u64)
    ensures
        spec_gpu_format_code(f) <= 56,
        jvm_format_shape(spec_gpu_format_code(f)) == format_shape(f),
        raw <= 56 && format_shape(f) == jvm_format_shape(raw) ==> spec_gpu_format_code(f) == raw,
{
    if raw <= 56 && format_shape(f) == jvm_format_shape(raw) {
        lemma_jvm_shapes_distinct(spec_gpu_format_code(f), raw);
    }
}

/// No two numbers the JVM passes stand for formats of the same shape.
proof fn lemma_jvm_shapes_distinct(a: u64, b: u64)
    requires
        a <= 56,
        b <= 56,
        jvm_format_shape(a) == jvm_format_shape(b),
    ensures
        a == b,
{
    lemma_jvm_shape_code(a);
    lemma_jvm_shape_code(b);
}

/// The number a shape the JVM numbers is numbered with.
pub open spec fn jvm_code_of(shape: FormatShape) -> u64 {
    match shape {
        FormatShape::Absent => 0,
        FormatShape::Channels(kind, bits, count) => (match kind {
            ChannelKind::Unorm => (if bits == 8 { 1int } else { 9int }) + 2 * (count - 1),
            ChannelKind::Snorm => (if bits == 8 { 2int } else { 10int }) + 2 * (count - 1),
            ChannelKind::Uint => (if bits == 8 { 17int } else if bits == 16 { 25int } else { 33int }) + 2 * (
            count - 1),
            ChannelKind::Sint => (if bits == 8 { 18int } else if bits == 16 { 26int } else { 34int }) + 2 * (
            count - 1),
            ChannelKind::Float => (if bits == 16 { 41int } else { 45int }) + (count - 1),
        }) as u64,
        FormatShape::Packed(kind, _, _, _, _) => match kind {
            ChannelKind::Unorm => 49,
            ChannelKind::Uint => 50,
            _ => 51,
        },
        FormatShape::DepthStencil(kind, depth, stencil) => if depth == 0 {
            56
        } else if depth == 16 {
            55
        } else if depth == 24 {
            54
        } else if stencil == 0 {
            52
        } else {
            53
        },
    }
}

/// Reading a number's shape back gives the number.
proof fn lemma_jvm_shape_code(code: u64)
    requires
        code <= 56,
    ensures
        jvm_code_of(jvm_format_shape(code)) == code,
{
}

/// The number the JVM passes for each [`GpuFormat`].
pub open spec fn spec_gpu_format_code(v: GpuFormat) -> u64 {
    match v {
        GpuFormat::NoFormat => 0,
        GpuFormat::R8_UNORM => 1,
        GpuFormat::R8_SNORM => 2,
        GpuFormat::RG8_UNORM => 3,
        GpuFormat::RG8_SNORM => 4,
        GpuFormat::RGB8_UNORM => 5,
        GpuFormat::RGB8_SNORM => 6,
        GpuFormat::RGBA8_UNORM => 7,
        GpuFormat::RGBA8_SNORM => 8,
        GpuFormat::R16_UNORM => 9,
        GpuFormat::R16_SNORM => 10,
        GpuFormat::RG16_UNORM => 11,
        GpuFormat::RG16_SNORM => 12,
        GpuFormat::RGB16_UNORM => 13,
        GpuFormat::RGB16_SNORM => 14,
        GpuFormat::RGBA16_UNORM => 15,
        GpuFormat::RGBA16_SNORM => 16,
        GpuFormat::R8_UINT => 17,
        GpuFormat::R8_SINT => 18,
        GpuFormat::RG8_UINT => 19,
        GpuFormat::RG8_SINT => 20,
        GpuFormat::RGB8_UINT => 21,
        GpuFormat::RGB8_SINT => 22,
        GpuFormat::RGBA8_UINT => 23,
        GpuFormat::RGBA8_SINT => 24,
        GpuFormat::R16_UINT => 25,
        GpuFormat::R16_SINT => 26,
        GpuFormat::RG16_UINT => 27,
        GpuFormat::RG16_SINT => 28,
        GpuFormat::RGB16_UINT => 29,
        GpuFormat::RGB16_SINT => 30,
        GpuFormat::RGBA16_UINT => 31,
        GpuFormat::RGBA16_SINT => 32,
        GpuFormat::R32_UINT => 33,
        GpuFormat::R32_SINT => 34,
        GpuFormat::RG32_UINT => 35,
        GpuFormat::RG32_SINT => 36,
        GpuFormat::RGB32_UINT => 37,
        GpuFormat::RGB32_SINT => 38,
        GpuFormat::RGBA32_UINT => 39,
        GpuFormat::RGBA32_SINT => 40,
        GpuFormat::R16_FLOAT => 41,
        GpuFormat::RG16_FLOAT => 42,
        GpuFormat::RGB16_FLOAT => 43,
        GpuFormat::RGBA16_FLOAT => 44,
        GpuFormat::R32_FLOAT => 45,
        GpuFormat::RG32_FLOAT => 46,
        GpuFormat::RGB32_FLOAT => 47,
        GpuFormat::RGBA32_FLOAT => 48,
        GpuFormat::RGB10A2_UNORM => 49,
        GpuFormat::RGB10A2_UINT => 50,
        GpuFormat::RG11B10_FLOAT => 51,
        GpuFormat::D32_FLOAT => 52,
        GpuFormat::D32_FLOAT_S8_UINT => 53,
        GpuFormat::D24_UNORM_S8_UINT => 54,
        GpuFormat::D16_UNORM => 55,
        GpuFormat::S8_UINT => 56,
    }
}

impl GpuFormat {
    /// The variant the JVM's number stands for, if it stands for one.
    pub fn from_raw(raw: u64) -> (r: Option<GpuFormat>)
        ensures
            match r {
                Some(v) => spec_gpu_format_code(v) == raw,
                None => raw < 0 || raw > 56,
            },
    {
        match raw {
            0 => Some(GpuFormat::NoFormat),
            1 => Some(GpuFormat::R8_UNORM),
            2 => Some(GpuFormat::R8_SNORM),
            3 => Some(GpuFormat::RG8_UNORM),
            4 => Some(GpuFormat::RG8_SNORM),
            5 => Some(GpuFormat::RGB8_UNORM),
            6 => Some(GpuFormat::RGB8_SNORM),
            7 => Some(GpuFormat::RGBA8_UNORM),
            8 => Some(GpuFormat::RGBA8_SNORM),
            9 => Some(GpuFormat::R16_UNORM),
            10 => Some(GpuFormat::R16_SNORM),
            11 => Some(GpuFormat::RG16_UNORM),
            12 => Some(GpuFormat::RG16_SNORM),
            13 => Some(GpuFormat::RGB16_UNORM),
            14 => Some(GpuFormat::RGB16_SNORM),
            15 => Some(GpuFormat::RGBA16_UNORM),
            16 => Some(GpuFormat::RGBA16_SNORM),
            17 => Some(GpuFormat::R8_UINT),
            18 => Some(GpuFormat::R8_SINT),
            19 => Some(GpuFormat::RG8_UINT),
            20 => Some(GpuFormat::RG8_SINT),
            21 => Some(GpuFormat::RGB8_UINT),
            22 => Some(GpuFormat::RGB8_SINT),
            23 => Some(GpuFormat::RGBA8_UINT),
            24 => Some(GpuFormat::RGBA8_SINT),
            25 => Some(GpuFormat::R16_UINT),
            26 => Some(GpuFormat::R16_SINT),
            27 => Some(GpuFormat::RG16_UINT),
            28 => Some(GpuFormat::RG16_SINT),
            29 => Some(GpuFormat::RGB16_UINT),
            30 => Some(GpuFormat::RGB16_SINT),
            31 => Some(GpuFormat::RGBA16_UINT),
            32 => Some(GpuFormat::RGBA16_SINT),
            33 => Some(GpuFormat::R32_UINT),
            34 => Some(GpuFormat::R32_SINT),
            35 => Some(GpuFormat::RG32_UINT),
            36 => Some(GpuFormat::RG32_SINT),
            37 => Some(GpuFormat::RGB32_UINT),
            38 => Some(GpuFormat::RGB32_SINT),
            39 => Some(GpuFormat::RGBA32_UINT),
            40 => Some(GpuFormat::RGBA32_SINT),
            41 => Some(GpuFormat::R16_FLOAT),
            42 => Some(GpuFormat::RG16_FLOAT),
            43 => Some(GpuFormat::RGB16_FLOAT),
            44 => Some(GpuFormat::RGBA16_FLOAT),
            45 => Some(GpuFormat::R32_FLOAT),
            46 => Some(GpuFormat::RG32_FLOAT),
            47 => Some(GpuFormat::RGB32_FLOAT),
            48 => Some(GpuFormat::RGBA32_FLOAT),
            49 => Some(GpuFormat::RGB10A2_UNORM),
            50 => Some(GpuFormat::RGB10A2_UINT),
            51 => Some(GpuFormat::RG11B10_FLOAT),
            52 => Some(GpuFormat::D32_FLOAT),
            53 => Some(GpuFormat::D32_FLOAT_S8_UINT),
            54 => Some(GpuFormat::D24_UNORM_S8_UINT),
            55 => Some(GpuFormat::D16_UNORM),
            56 => Some(GpuFormat::S8_UINT),
            _ => None,
        }
    }

    /// The number the JVM passes for this variant.
    pub fn raw(self) -> (n: u64)
        ensures
            n == spec_gpu_format_code(self),
    {
        match self {
            GpuFormat::NoFormat => 0,
            GpuFormat::R8_UNORM => 1,
            GpuFormat::R8_SNORM => 2,
            GpuFormat::RG8_UNORM => 3,
            GpuFormat::RG8_SNORM => 4,
            GpuFormat::RGB8_UNORM => 5,
            GpuFormat::RGB8_SNORM => 6,
            GpuFormat::RGBA8_UNORM => 7,
            GpuFormat::RGBA8_SNORM => 8,
            GpuFormat::R16_UNORM => 9,
            GpuFormat::R16_SNORM => 10,
            GpuFormat::RG16_UNORM => 11,
            GpuFormat::RG16_SNORM => 12,
            GpuFormat::RGB16_UNORM => 13,
            GpuFormat::RGB16_SNORM => 14,
            GpuFormat::RGBA16_UNORM => 15,
            GpuFormat::RGBA16_SNORM => 16,
            GpuFormat::R8_UINT => 17,
            GpuFormat::R8_SINT => 18,
            GpuFormat::RG8_UINT => 19,
            GpuFormat::RG8_SINT => 20,
            GpuFormat::RGB8_UINT => 21,
            GpuFormat::RGB8_SINT => 22,
            GpuFormat::RGBA8_UINT => 23,
            GpuFormat::RGBA8_SINT => 24,
            GpuFormat::R16_UINT => 25,
            GpuFormat::R16_SINT => 26,
            GpuFormat::RG16_UINT => 27,
            GpuFormat::RG16_SINT => 28,
            GpuFormat::RGB16_UINT => 29,
            GpuFormat::RGB16_SINT => 30,
            GpuFormat::RGBA16_UINT => 31,
            GpuFormat::RGBA16_SINT => 32,
            GpuFormat::R32_UINT => 33,
            GpuFormat::R32_SINT => 34,
            GpuFormat::RG32_UINT => 35,
            GpuFormat::RG32_SINT => 36,
            GpuFormat::RGB32_UINT => 37,
            GpuFormat::RGB32_SINT => 38,
            GpuFormat::RGBA32_UINT => 39,
            GpuFormat::RGBA32_SINT => 40,
            GpuFormat::R16_FLOAT => 41,
            GpuFormat::RG16_FLOAT => 42,
            GpuFormat::RGB16_FLOAT => 43,
            GpuFormat::RGBA16_FLOAT => 44,
            GpuFormat::R32_FLOAT => 45,
            GpuFormat::RG32_FLOAT => 46,
            GpuFormat::RGB32_FLOAT => 47,
            GpuFormat::RGBA32_FLOAT => 48,
            GpuFormat::RGB10A2_UNORM => 49,
            GpuFormat::RGB10A2_UINT => 50,
            GpuFormat::RG11B10_FLOAT => 51,
            GpuFormat::D32_FLOAT => 52,
            GpuFormat::D32_FLOAT_S8_UINT => 53,
            GpuFormat::D24_UNORM_S8_UINT => 54,
            GpuFormat::D16_UNORM => 55,
            GpuFormat::S8_UINT => 56,
        }
    }
}

impl PrimitiveTopology {
    /// Whether the vertices make a triangle fan, which is drawn through generated indices.
    pub fn is_fan(self) -> (r: bool)
        ensures
            r == (self == PrimitiveTopology::TriangleFan),
    {
        match self {
            PrimitiveTopology::TriangleFan => true,
            _ => false,
        }
    }
}

// ---------------------------------------------------------------------------------------------
// The plan
// ---------------------------------------------------------------------------------------------

/// What a binding holds, as far as the wgpu layout, the bind group and the shader all need to know.
#[derive(Clone, Copy, Debug, PartialEq, Eq, Structural)]
pub enum PlannedResource {
    /// A uniform buffer. `min_size` is the block size the shader declares, once it is known.
    Uniform { min_size: Option<u64> },
    /// A texel buffer, which wgpu sees as a read-only storage buffer with a runtime-sized array.
    Storage,
    /// The texture half of a shimmed combined sampler.
    Texture { cube: bool },
    /// The sampler half of a shimmed combined sampler.
    Sampler,
}

/// One binding, in the order it appears in its set.
pub struct PlannedBinding {
    /// The name the JVM binds under.
    pub name: String,
    /// The name the pipeline description used, which is what the shader declared.
    pub declared_name: String,
    pub resource: PlannedResource,
    pub binding: u32,
}

/// Everything about a pipeline's bindings, in one place.
pub struct BindGroupPlan {
    pub name: String,
    /// One entry per bind group, in binding order.
    pub sets: Vec<Vec<PlannedBinding>>,
    /// Whether this plan has any uniform bindings, which are the ones that can carry an offset
    /// dynamically.
    pub has_uniforms: bool,
    /// What this plan contributes to a draw's key, computed once when the plan is built.
    pub salt: u64,
}

/// A binding as plain values: the name it is bound under, the name it was declared under, what it
/// holds and its binding number.
pub type BindingView = (Seq<char>, Seq<char>, PlannedResource, nat);

/// A binding's plain values.
pub open spec fn view_of(b: PlannedBinding) -> BindingView {
    (b.name@, b.declared_name@, b.resource, b.binding as nat)
}

/// A set's bindings as plain values.
pub open spec fn set_views(bindings: Seq<PlannedBinding>) -> Seq<BindingView> {
    bindings.map_values(|b: PlannedBinding| view_of(b))
}

/// A plan's sets as plain values.
pub open spec fn sets_view(sets: Seq<Vec<PlannedBinding>>) -> Seq<Seq<BindingView>> {
    sets.map_values(|v: Vec<PlannedBinding>| set_views(v@))
}

/// Whether a resource is a uniform buffer.
pub open spec fn is_uniform(r: PlannedResource) -> bool {
    r matches PlannedResource::Uniform { .. }
}

/// `v` rotated left by five bits.
pub open spec fn rotl5(v: u64) -> u64 {
    (v << 5u64) | (v >> 59u64)
}

/// Folds `value` into a running key: rotate, xor, multiply.
pub open spec fn spec_fold(key: u64, value: u64) -> u64 {
    (rotl5(key) ^ value).wrapping_mul(FOLD_MULTIPLIER)
}

/// Folds `value` into a running key.
///
/// All a key has to do is tell two binding tables apart, and a rotate-and-multiply fold does that
/// with a few instructions and no finalisation.
pub fn fold(key: u64, value: u64) -> (r: u64)
    ensures
        r == spec_fold(key, value),
{
    let rotated = (key << 5u64) | (key >> 59u64);
    (rotated ^ value).wrapping_mul(FOLD_MULTIPLIER)
}

/// The bindings one pipeline-description set numbers to, starting at binding `next`.
///
/// A uniform and a texel buffer take one binding each under their own name; a combined sampler
/// takes two, a texture and a sampler under the shim's two names, both declared under the sampler's
/// own name.
pub open spec fn numbered(entries: Seq<(Seq<char>, UniformType)>, next: nat) -> Seq<BindingView>
    decreases entries.len(),
{
    if entries.len() == 0 {
        Seq::empty()
    } else {
        let name = entries[0].0;
        let rest = entries.drop_first();
        match entries[0].1 {
            UniformType::UBO => seq![
                (name, name, PlannedResource::Uniform { min_size: None }, next),
            ] + numbered(rest, next + 1),
            UniformType::TexelBuffer => seq![(name, name, PlannedResource::Storage, next)]
                + numbered(rest, next + 1),
            UniformType::Sampler => seq![
                (name + SHIM_TEXTURE_SUFFIX@, name, PlannedResource::Texture { cube: false }, next),
                (name + SHIM_SAMPLER_SUFFIX@, name, PlannedResource::Sampler, next + 1),
            ] + numbered(rest, next + 2),
        }
    }
}

/// A pipeline description's set as plain values.
pub open spec fn layout_view(layout: Seq<(String, UniformType)>) -> Seq<(Seq<char>, UniformType)> {
    layout.map_values(|e: (String, UniformType)| (e.0@, e.1))
}

/// Whether some binding of some set holds a uniform buffer.
pub open spec fn any_uniform(sets: Seq<Seq<BindingView>>) -> bool {
    exists|s: int, i: int|
        0 <= s < sets.len() && 0 <= i < sets[s].len() && is_uniform(#[trigger] sets[s][i].2)
}

/// `key` with every byte of `bytes` folded in, in order.
pub open spec fn fold_bytes(key: u64, bytes: Seq<u8>) -> u64
    decreases bytes.len(),
{
    if bytes.len() == 0 {
        key
    } else {
        spec_fold(fold_bytes(key, bytes.drop_last()), bytes.last() as u64)
    }
}

/// A plan's salt: its name's length and bytes folded from zero, then whether it has uniforms.
pub open spec fn spec_salt(name: Seq<u8>, has_uniforms: bool) -> u64 {
    spec_fold(
        fold_bytes(spec_fold(0, name.len() as u64), name),
        if has_uniforms {
            1
        } else {
            0
        },
    )
}

/// Numbers one set of a pipeline description.
fn number_set(layout: &Vec<(String, UniformType)>) -> (bindings: Vec<PlannedBinding>)
    requires
        layout@.len() < 0x8000_0000,
    ensures
        set_views(bindings@) == numbered(layout_view(layout@), 0),
{
    let ghost entries = layout_view(layout@);
    let mut bindings: Vec<PlannedBinding> = Vec::new();
    let mut next: u32 = 0;
    let mut i: usize = 0;
    assert(entries.skip(0) =~= entries);
    assert(set_views(bindings@) =~= Seq::<BindingView>::empty());
    assert(Seq::<BindingView>::empty() + numbered(entries, 0) =~= numbered(entries, 0));
    while i < layout.len()
        invariant
            i <= layout.len(),
            layout@.len() < 0x8000_0000,
            entries == layout_view(layout@),
            next <= 2 * i,
            set_views(bindings@) + numbered(entries.skip(i as int), next as nat) == numbered(
                entries,
                0,
            ),
        decreases layout.len() - i,
    {
        let ghost before = set_views(bindings@);
        let ghost rest = entries.skip(i as int);
        assert(rest[0] == entries[i as int]);
        assert(rest.drop_first() =~= entries.skip(i as int + 1));
        let name = layout[i].0.clone();
        match layout[i].1 {
            UniformType::UBO => {
                let declared = name.clone();
                bindings.push(
                    PlannedBinding {
                        name,
                        declared_name: declared,
                        resource: PlannedResource::Uniform { min_size: None },
                        binding: next,
                    },
                );
                assert(set_views(bindings@) =~= before.push(
                    (entries[i as int].0, entries[i as int].0, PlannedResource::Uniform { min_size: None }, next as nat),
                ));
                next = next + 1;
            },
            UniformType::TexelBuffer => {
                let declared = name.clone();
                bindings.push(
                    PlannedBinding {
                        name,
                        declared_name: declared,
                        resource: PlannedResource::Storage,
                        binding: next,
                    },
                );
                assert(set_views(bindings@) =~= before.push(
                    (entries[i as int].0, entries[i as int].0, PlannedResource::Storage, next as nat),
                ));
                next = next + 1;
            },
            UniformType::Sampler => {
                let mut texture = name.clone();
                texture.append(SHIM_TEXTURE_SUFFIX);
                let mut sampler = name.clone();
                sampler.append(SHIM_SAMPLER_SUFFIX);
                let declared = name.clone();
                bindings.push(
                    PlannedBinding {
                        name: texture,
                        declared_name: declared,
                        resource: PlannedResource::Texture { cube: false },
                        binding: next,
                    },
                );
                bindings.push(
                    PlannedBinding {
                        name: sampler,
                        declared_name: name,
                        resource: PlannedResource::Sampler,
                        binding: next + 1,
                    },
                );
                assert(set_views(bindings@) =~= before + seq![
                    (entries[i as int].0 + SHIM_TEXTURE_SUFFIX@, entries[i as int].0, PlannedResource::Texture { cube: false }, next as nat),
                    (entries[i as int].0 + SHIM_SAMPLER_SUFFIX@, entries[i as int].0, PlannedResource::Sampler, (next + 1) as nat),
                ]);
                next = next + 2;
            },
        }
        i = i + 1;
    }
    assert(entries.skip(layout.len() as int) =~= Seq::<(Seq<char>, UniformType)>::empty());
    assert(set_views(bindings@) =~= numbered(entries, 0));
    bindings
}

impl BindGroupPlan {
    /// Numbers the bindings of a pipeline description, before anything is known about the shaders.
    ///
    /// The GLSL annotations, the wgpu layouts and the bind groups all take their binding numbers
    /// from here, so they cannot drift apart.
    pub fn number(name: &str, layouts: &Vec<Vec<(String, UniformType)>>) -> (plan: BindGroupPlan)
        requires
            forall|s: int| 0 <= s < layouts@.len() ==> (#[trigger] layouts@[s])@.len() < 0x8000_0000,
        ensures
            plan.name@ == name@,
            sets_view(plan.sets@).len() == layouts@.len(),
            forall|s: int|
                0 <= s < layouts@.len() ==> #[trigger] sets_view(plan.sets@)[s] == numbered(
                    layout_view(layouts@[s]@),
                    0,
                ),
            plan.has_uniforms == any_uniform(sets_view(plan.sets@)),
            plan.salt == spec_salt(name.spec_bytes(), plan.has_uniforms),
    {
        let mut sets: Vec<Vec<PlannedBinding>> = Vec::new();
        let mut s: usize = 0;
        while s < layouts.len()
            invariant
                s <= layouts.len(),
                forall|t: int| 0 <= t < layouts@.len() ==> (#[trigger] layouts@[t])@.len() < 0x8000_0000,
                sets_view(sets@).len() == s,
                forall|t: int|
                    0 <= t < s ==> #[trigger] sets_view(sets@)[t] == numbered(
                        layout_view(layouts@[t]@),
                        0,
                    ),
            decreases layouts.len() - s,
        {
            let bindings = number_set(&layouts[s]);
            let ghost before = sets_view(sets@);
            sets.push(bindings);
            assert(sets_view(sets@) =~= before.push(set_views(bindings@)));
            s = s + 1;
        }

        let has_uniforms = plan_has_uniforms(&sets);

        let salt = plan_salt(name, has_uniforms);

        BindGroupPlan { name: name.to_owned(), sets, has_uniforms, salt }
    }
}

/// A plan's salt, from its name and whether it has uniforms.
fn plan_salt(name: &str, has_uniforms: bool) -> (salt: u64)
    ensures
        salt == spec_salt(name.spec_bytes(), has_uniforms),
{
    let bytes: &[u8] = name.as_bytes();
    let len = bytes.len();
    assert(bytes@.len() == len);
    let mut salt = fold(0, len as u64);
    let mut i: usize = 0;
    while i < len
        invariant
            i <= len,
            len == bytes@.len(),
            salt == fold_bytes(spec_fold(0, len as u64), bytes@.take(i as int)),
        decreases len - i,
    {
        salt = fold(salt, bytes[i] as u64);
        assert(bytes@.take(i as int + 1).drop_last() =~= bytes@.take(i as int));
        i = i + 1;
    }
    assert(bytes@.take(len as int) =~= bytes@);
    fold(salt, if has_uniforms { 1 } else { 0 })
}

/// Whether some binding of some set holds a uniform buffer.
fn plan_has_uniforms(sets: &Vec<Vec<PlannedBinding>>) -> (r: bool)
    ensures
        r == any_uniform(sets_view(sets@)),
{
    let ghost v = sets_view(sets@);
    let mut s: usize = 0;
    while s < sets.len()
        invariant
            s <= sets.len(),
            v == sets_view(sets@),
            forall|t: int, i: int| 0 <= t < s && 0 <= i < v[t].len() ==> !is_uniform(#[trigger] v[t][i].2),
        decreases sets.len() - s,
    {
        let mut i: usize = 0;
        while i < sets[s].len()
            invariant
                s < sets.len(),
                i <= sets@[s as int]@.len(),
                v == sets_view(sets@),
                forall|t: int, k: int| 0 <= t < s && 0 <= k < v[t].len() ==> !is_uniform(#[trigger] v[t][k].2),
                forall|k: int| 0 <= k < i ==> !is_uniform(#[trigger] v[s as int][k].2),
            decreases sets@[s as int]@.len() - i,
        {
            assert(v[s as int][i as int] == view_of(sets@[s as int]@[i as int]));
            match sets[s][i].resource {
                PlannedResource::Uniform { .. } => {
                    assert(is_uniform(v[s as int][i as int].2));
                    return true;
                },
                _ => {},
            }
            i = i + 1;
        }
        s = s + 1;
    }
    false
}

/// Where the shader finds one binding: under the name it is bound by, and a texel buffer under the
/// name it was declared by as well.
pub open spec fn binding_locations(b: BindingView, set: int) -> Seq<(Seq<char>, (u32, u32))> {
    let here = (set as u32, b.3 as u32);
    if b.2 == PlannedResource::Storage {
        seq![(b.0, here), (b.1, here)]
    } else {
        seq![(b.0, here)]
    }
}

/// Where the shader finds the bindings of one set.
pub open spec fn set_locations(bindings: Seq<BindingView>, set: int) -> Seq<(Seq<char>, (u32, u32))>
    decreases bindings.len(),
{
    if bindings.len() == 0 {
        Seq::empty()
    } else {
        set_locations(bindings.drop_last(), set) + binding_locations(bindings.last(), set)
    }
}

/// Where the shader finds every binding of a plan, set by set.
pub open spec fn plan_locations(sets: Seq<Seq<BindingView>>) -> Seq<(Seq<char>, (u32, u32))>
    decreases sets.len(),
{
    if sets.len() == 0 {
        Seq::empty()
    } else {
        plan_locations(sets.drop_last()) + set_locations(sets.last(), sets.len() - 1)
    }
}

/// How many of a set's bindings are uniform buffers.
pub open spec fn uniform_count(bindings: Seq<BindingView>) -> nat
    decreases bindings.len(),
{
    if bindings.len() == 0 {
        0
    } else {
        uniform_count(bindings.drop_last()) + if is_uniform(bindings.last().2) {
            1nat
        } else {
            0nat
        }
    }
}

/// A binding with the block size the shader declares filled in, when it is a uniform whose declared
/// name has one.
pub open spec fn sized(b: BindingView, sizes: Seq<(Seq<char>, u64)>) -> BindingView {
    if is_uniform(b.2) && lookup(sizes, b.1) is Some {
        (b.0, b.1, PlannedResource::Uniform { min_size: Some(lookup(sizes, b.1)->0) }, b.3)
    } else {
        b
    }
}

/// A binding with its sampler kind filled in, when it is a texture whose declared name has one.
pub open spec fn typed(b: BindingView, cube: Seq<(Seq<char>, bool)>) -> BindingView {
    if b.2 matches PlannedResource::Texture { .. } && lookup(cube, b.1) is Some {
        (b.0, b.1, PlannedResource::Texture { cube: lookup(cube, b.1)->0 }, b.3)
    } else {
        b
    }
}

/// Whether a binding's offset may travel with the draw rather than be baked into the bind group: a
/// uniform binding of a plan that has any.
pub fn may_travel(has_uniforms: bool, resource: &PlannedResource) -> (r: bool)
    ensures
        r == (has_uniforms && is_uniform(*resource)),
{
    has_uniforms && match resource {
        PlannedResource::Uniform { .. } => true,
        _ => false,
    }
}

/// What a draw has to bind in a slot that holds `resource`.
pub open spec fn spec_kind_of(resource: PlannedResource) -> u32 {
    match resource {
        PlannedResource::Uniform { .. } | PlannedResource::Storage => DRAW_BINDING_BUFFER,
        PlannedResource::Texture { .. } => DRAW_BINDING_TEXTURE,
        PlannedResource::Sampler => DRAW_BINDING_SAMPLER,
    }
}

/// One binding of a pipeline's plan, in slot order, as the JVM is handed it.
pub struct PlanBinding {
    /// The name the JVM binds this slot under.
    pub name: String,
    /// The name the pipeline declared it under.
    pub declared_name: String,
    /// The set and binding number the layout declares.
    pub set: u32,
    pub binding: u32,
    /// One of the `DRAW_BINDING_*` constants: what has to be bound here.
    pub kind: u32,
    /// Whether this binding's offset may travel with the draw.
    pub dynamic: u32,
}

impl PlanBinding {
    /// What a draw has to bind in a slot that holds `resource`.
    pub fn kind_of(resource: &PlannedResource) -> (kind: u32)
        ensures
            kind == spec_kind_of(*resource),
    {
        match resource {
            PlannedResource::Uniform { .. } | PlannedResource::Storage => DRAW_BINDING_BUFFER,
            PlannedResource::Texture { .. } => DRAW_BINDING_TEXTURE,
            PlannedResource::Sampler => DRAW_BINDING_SAMPLER,
        }
    }
}

impl BindGroupPlan {
    /// The name-to-location list the GLSL annotator reads, set by set and binding by binding; a
    /// texel buffer is listed under its declared name too, which is what the shader uses for it.
    pub fn shader_locations(&self) -> (locations: Vec<(String, (u32, u32))>)
        ensures
            named(locations@) == plan_locations(sets_view(self.sets@)),
    {
        let ghost v = sets_view(self.sets@);
        let mut locations: Vec<(String, (u32, u32))> = Vec::new();
        let mut s: usize = 0;
        while s < self.sets.len()
            invariant
                s <= self.sets.len(),
                v == sets_view(self.sets@),
                named(locations@) == plan_locations(v.take(s as int)),
            decreases self.sets.len() - s,
        {
            let ghost before = named(locations@);
            #[verifier::truncate]
            let set = (s as u32);
            let mut i: usize = 0;
            while i < self.sets[s].len()
                invariant
                    s < self.sets.len(),
                    i <= self.sets@[s as int]@.len(),
                    v == sets_view(self.sets@),
                    set == s as u32,
                    named(locations@) == before + set_locations(v[s as int].take(i as int), s as int),
                decreases self.sets@[s as int]@.len() - i,
            {
                let b = &self.sets[s][i];
                let ghost bv = view_of(*b);
                assert(v[s as int][i as int] == bv);
                let ghost mid = named(locations@);
                locations.push((b.name.clone(), (set, b.binding)));
                if b.resource == PlannedResource::Storage {
                    locations.push((b.declared_name.clone(), (set, b.binding)));
                }
                assert(named(locations@) =~= mid + binding_locations(bv, s as int));
                let ghost t = v[s as int].take(i as int + 1);
                assert(t.drop_last() =~= v[s as int].take(i as int));
                i = i + 1;
            }
            assert(v[s as int].take(self.sets@[s as int]@.len() as int) =~= v[s as int]);
            let ghost u = v.take(s as int + 1);
            assert(u.drop_last() =~= v.take(s as int));
            s = s + 1;
        }
        assert(v.take(self.sets.len() as int) =~= v);
        locations
    }

    /// How many dynamic offsets this plan's layouts expect, per set: one per uniform binding.
    pub fn dynamic_counts(&self) -> (counts: Vec<usize>)
        ensures
            counts@.len() == self.sets@.len(),
            forall|s: int|
                0 <= s < counts@.len() ==> #[trigger] counts@[s] == uniform_count(
                    sets_view(self.sets@)[s],
                ),
    {
        let ghost v = sets_view(self.sets@);
        let mut counts: Vec<usize> = Vec::new();
        let mut s: usize = 0;
        while s < self.sets.len()
            invariant
                s <= self.sets.len(),
                v == sets_view(self.sets@),
                counts@.len() == s,
                forall|t: int| 0 <= t < s ==> #[trigger] counts@[t] == uniform_count(v[t]),
            decreases self.sets.len() - s,
        {
            let mut count: usize = 0;
            let mut i: usize = 0;
            while i < self.sets[s].len()
                invariant
                    s < self.sets.len(),
                    i <= self.sets@[s as int]@.len(),
                    v == sets_view(self.sets@),
                    count == uniform_count(v[s as int].take(i as int)),
                    count <= i,
                decreases self.sets@[s as int]@.len() - i,
            {
                assert(v[s as int][i as int] == view_of(self.sets@[s as int]@[i as int]));
                let ghost t = v[s as int].take(i as int + 1);
                assert(t.drop_last() =~= v[s as int].take(i as int));
                match self.sets[s][i].resource {
                    PlannedResource::Uniform { .. } => {
                        count = count + 1;
                    },
                    _ => {},
                }
                i = i + 1;
            }
            assert(v[s as int].take(self.sets@[s as int]@.len() as int) =~= v[s as int]);
            counts.push(count);
            s = s + 1;
        }
        counts
    }

    /// Fills in the block sizes the shaders declare: every uniform binding whose declared name has
    /// a size gets it as its minimum size.
    pub fn apply_block_sizes(&mut self, sizes: &Vec<(String, u64)>)
        ensures
            final(self).name == old(self).name,
            final(self).has_uniforms == old(self).has_uniforms,
            final(self).salt == old(self).salt,
            sets_view(final(self).sets@).len() == sets_view(old(self).sets@).len(),
            forall|s: int|
                0 <= s < sets_view(old(self).sets@).len() ==> #[trigger] sets_view(
                    final(self).sets@,
                )[s] == sets_view(old(self).sets@)[s].map_values(
                    |b: BindingView| sized(b, named(sizes@)),
                ),
    {
        let ghost v = sets_view(self.sets@);
        let mut s: usize = 0;
        while s < self.sets.len()
            invariant
                s <= self.sets.len(),
                self.sets@.len() == v.len(),
                self.name == old(self).name,
                self.has_uniforms == old(self).has_uniforms,
                self.salt == old(self).salt,
                v == sets_view(old(self).sets@),
                forall|t: int|
                    0 <= t < s ==> #[trigger] sets_view(self.sets@)[t] == v[t].map_values(
                        |b: BindingView| sized(b, named(sizes@)),
                    ),
                forall|t: int| s <= t < v.len() ==> #[trigger] sets_view(self.sets@)[t] == v[t],
            decreases self.sets.len() - s,
        {
            let ghost before = self.sets@;
            let mut set: Vec<PlannedBinding> = Vec::new();
            std::mem::swap(&mut set, &mut self.sets[s]);
            assert(set_views(set@) == v[s as int]) by {
                assert(sets_view(before)[s as int] == set_views(before[s as int]@));
            }
            size_set(&mut set, sizes);
            std::mem::swap(&mut set, &mut self.sets[s]);
            assert forall|t: int| 0 <= t < v.len() && t != s implies #[trigger] self.sets@[t] == before[t] by {}
            assert forall|t: int| 0 <= t < v.len() implies #[trigger] sets_view(self.sets@)[t] == (if t == s {
                v[t].map_values(|b: BindingView| sized(b, named(sizes@)))
            } else {
                sets_view(before)[t]
            }) by {
                if t == s {
                    assert(set_views(self.sets@[t]@) == v[t].map_values(|b: BindingView| sized(b, named(sizes@))));
                }
            }
            s = s + 1;
        }
    }

    /// Fills in what kind of sampler each combined sampler turned out to be: every texture binding
    /// whose declared name has a flag becomes a cube texture or a 2D one by it.
    pub fn apply_sampler_types(&mut self, cube: &Vec<(String, bool)>)
        ensures
            final(self).name == old(self).name,
            final(self).has_uniforms == old(self).has_uniforms,
            final(self).salt == old(self).salt,
            sets_view(final(self).sets@).len() == sets_view(old(self).sets@).len(),
            forall|s: int|
                0 <= s < sets_view(old(self).sets@).len() ==> #[trigger] sets_view(
                    final(self).sets@,
                )[s] == sets_view(old(self).sets@)[s].map_values(
                    |b: BindingView| typed(b, named(cube@)),
                ),
    {
        let ghost v = sets_view(self.sets@);
        let mut s: usize = 0;
        while s < self.sets.len()
            invariant
                s <= self.sets.len(),
                self.sets@.len() == v.len(),
                self.name == old(self).name,
                self.has_uniforms == old(self).has_uniforms,
                self.salt == old(self).salt,
                v == sets_view(old(self).sets@),
                forall|t: int|
                    0 <= t < s ==> #[trigger] sets_view(self.sets@)[t] == v[t].map_values(
                        |b: BindingView| typed(b, named(cube@)),
                    ),
                forall|t: int| s <= t < v.len() ==> #[trigger] sets_view(self.sets@)[t] == v[t],
            decreases self.sets.len() - s,
        {
            let ghost before = self.sets@;
            let mut set: Vec<PlannedBinding> = Vec::new();
            std::mem::swap(&mut set, &mut self.sets[s]);
            assert(set_views(set@) == v[s as int]) by {
                assert(sets_view(before)[s as int] == set_views(before[s as int]@));
            }
            type_set(&mut set, cube);
            std::mem::swap(&mut set, &mut self.sets[s]);
            assert forall|t: int| 0 <= t < v.len() && t != s implies #[trigger] self.sets@[t] == before[t] by {}
            assert forall|t: int| 0 <= t < v.len() implies #[trigger] sets_view(self.sets@)[t] == (if t == s {
                v[t].map_values(|b: BindingView| typed(b, named(cube@)))
            } else {
                sets_view(before)[t]
            }) by {
                if t == s {
                    assert(set_views(self.sets@[t]@) == v[t].map_values(|b: BindingView| typed(b, named(cube@))));
                }
            }
            s = s + 1;
        }
    }
}

/// Fills in the block sizes of one set.
fn size_set(set: &mut Vec<PlannedBinding>, sizes: &Vec<(String, u64)>)
    ensures
        set_views(final(set)@) == set_views(old(set)@).map_values(
            |b: BindingView| sized(b, named(sizes@)),
        ),
{
    let ghost v = set_views(set@);
    let mut i: usize = 0;
    while i < set.len()
        invariant
            i <= set.len(),
            v == set_views(old(set)@),
            set@.len() == v.len(),
            forall|k: int| 0 <= k < i ==> #[trigger] set_views(set@)[k] == sized(v[k], named(sizes@)),
            forall|k: int| i <= k < v.len() ==> #[trigger] set_views(set@)[k] == v[k],
        decreases set.len() - i,
    {
        assert(set_views(set@)[i as int] == v[i as int]);
        let ghost prev = set@;
        let is_uniform_binding = match set[i].resource {
            PlannedResource::Uniform { .. } => true,
            _ => false,
        };
        if is_uniform_binding {
            let found = lookup_in(sizes, &set[i].declared_name);
            match found {
                Some(size) => {
                    set[i].resource = PlannedResource::Uniform { min_size: Some(size) };
                },
                None => {},
            }
        }
        assert(set@.len() == prev.len());
        assert forall|k: int| 0 <= k < v.len() && k != i implies #[trigger] set_views(set@)[k]
            == set_views(prev)[k] by {
            assert(set@[k] == prev[k]);
        }
        assert(set_views(set@)[i as int] == sized(v[i as int], named(sizes@)));
        i = i + 1;
    }
    assert(set_views(set@) =~= v.map_values(|b: BindingView| sized(b, named(sizes@))));
}

/// Fills in the sampler kinds of one set.
fn type_set(set: &mut Vec<PlannedBinding>, cube: &Vec<(String, bool)>)
    ensures
        set_views(final(set)@) == set_views(old(set)@).map_values(
            |b: BindingView| typed(b, named(cube@)),
        ),
{
    let ghost v = set_views(set@);
    let mut i: usize = 0;
    while i < set.len()
        invariant
            i <= set.len(),
            v == set_views(old(set)@),
            set@.len() == v.len(),
            forall|k: int| 0 <= k < i ==> #[trigger] set_views(set@)[k] == typed(v[k], named(cube@)),
            forall|k: int| i <= k < v.len() ==> #[trigger] set_views(set@)[k] == v[k],
        decreases set.len() - i,
    {
        assert(set_views(set@)[i as int] == v[i as int]);
        let ghost prev = set@;
        let is_texture = match set[i].resource {
            PlannedResource::Texture { .. } => true,
            _ => false,
        };
        if is_texture {
            let found = lookup_in(cube, &set[i].declared_name);
            match found {
                Some(flag) => {
                    set[i].resource = PlannedResource::Texture { cube: flag };
                },
                None => {},
            }
        }
        assert(set@.len() == prev.len());
        assert forall|k: int| 0 <= k < v.len() && k != i implies #[trigger] set_views(set@)[k]
            == set_views(prev)[k] by {
            assert(set@[k] == prev[k]);
        }
        assert(set_views(set@)[i as int] == typed(v[i as int], named(cube@)));
        i = i + 1;
    }
    assert(set_views(set@) =~= v.map_values(|b: BindingView| typed(b, named(cube@))));
}

/// `x` inserted into `s` after every binding whose number is not greater than its own.
pub open spec fn insert_by_binding(s: Seq<BindingView>, x: BindingView) -> Seq<BindingView>
    decreases s.len(),
{
    if s.len() == 0 {
        seq![x]
    } else if x.3 < s[0].3 {
        seq![x] + s
    } else {
        seq![s[0]] + insert_by_binding(s.drop_first(), x)
    }
}

/// `s` sorted by binding number, bindings with equal numbers keeping their order.
pub open spec fn sort_by_binding(s: Seq<BindingView>) -> Seq<BindingView>
    decreases s.len(),
{
    if s.len() == 0 {
        s
    } else {
        insert_by_binding(sort_by_binding(s.drop_last()), s.last())
    }
}

/// The uniform bindings the implicit blocks become: each under its own name, at its binding.
pub open spec fn implicit_views(implicit: Seq<(String, u32)>) -> Seq<BindingView> {
    implicit.map_values(
        |e: (String, u32)| (e.0@, e.0@, PlannedResource::Uniform { min_size: None }, e.1 as nat),
    )
}

/// The sets with the implicit blocks added to the first one, which is created when there is none.
pub open spec fn with_implicit(sets: Seq<Seq<BindingView>>, extra: Seq<BindingView>) -> Seq<
    Seq<BindingView>,
> {
    let base = if sets.len() == 0 {
        seq![Seq::<BindingView>::empty()]
    } else {
        sets
    };
    base.update(0, sort_by_binding(base[0] + extra))
}

/// Inserting before the first greater binding is inserting after every one that is not greater.
proof fn lemma_insert_by_binding(s: Seq<BindingView>, x: BindingView, p: int)
    requires
        0 <= p <= s.len(),
        forall|k: int| 0 <= k < p ==> (#[trigger] s[k]).3 <= x.3,
        p < s.len() ==> s[p].3 > x.3,
    ensures
        insert_by_binding(s, x) == s.insert(p, x),
    decreases s.len(),
{
    if s.len() == 0 {
        assert(s.insert(p, x) =~= seq![x]);
    } else if x.3 < s[0].3 {
        assert(s.insert(p, x) =~= seq![x] + s);
    } else {
        let rest = s.drop_first();
        assert forall|k: int| 0 <= k < p - 1 implies (#[trigger] rest[k]).3 <= x.3 by {
            assert(rest[k] == s[k + 1]);
        }
        lemma_insert_by_binding(rest, x, p - 1);
        assert(s.insert(p, x) =~= seq![s[0]] + rest.insert(p - 1, x));
    }
}

/// Sorts a set by binding number, bindings with equal numbers keeping their order.
fn sort_set(set: Vec<PlannedBinding>) -> (sorted: Vec<PlannedBinding>)
    ensures
        set_views(sorted@) == sort_by_binding(set_views(set@)),
{
    let ghost all = set_views(set@);
    let n = set.len();
    let mut rest = set;
    let mut sorted: Vec<PlannedBinding> = Vec::new();
    let mut k: usize = 0;
    assert(all.take(0) =~= Seq::<BindingView>::empty());
    assert(all.skip(0) =~= all);
    while rest.len() > 0
        invariant
            k <= all.len(),
            n == all.len(),
            k + rest@.len() == n,
            set_views(rest@) == all.skip(k as int),
            set_views(sorted@) == sort_by_binding(all.take(k as int)),
        decreases rest.len(),
    {
        assert(set_views(rest@)[0] == all[k as int]);
        let ghost old_rest = rest@;
        let x = rest.remove(0);
        assert forall|j: int| 0 <= j < rest@.len() implies #[trigger] set_views(rest@)[j]
            == all.skip(k as int + 1)[j] by {
            assert(rest@[j] == old_rest[j + 1]);
            assert(set_views(old_rest)[j + 1] == all.skip(k as int)[j + 1]);
        }
        assert(set_views(rest@) =~= all.skip(k as int + 1));
        let ghost xv = view_of(x);
        let ghost before = set_views(sorted@);
        let mut p: usize = 0;
        while p < sorted.len() && sorted[p].binding <= x.binding
            invariant
                p <= sorted.len(),
                before == set_views(sorted@),
                xv == view_of(x),
                forall|j: int| 0 <= j < p ==> (#[trigger] before[j]).3 <= xv.3,
            decreases sorted.len() - p,
        {
            assert(before[p as int] == view_of(sorted@[p as int]));
            p = p + 1;
        }
        if p < sorted.len() {
            assert(before[p as int] == view_of(sorted@[p as int]));
        }
        proof {
            lemma_insert_by_binding(before, xv, p as int);
        }
        sorted.insert(p, x);
        assert(set_views(sorted@) =~= before.insert(p as int, xv));
        let ghost t = all.take(k as int + 1);
        assert(t.drop_last() =~= all.take(k as int));
        k = k + 1;
    }
    assert(all.take(k as int) =~= all);
    sorted
}

impl BindGroupPlan {
    /// Adds the uniform blocks the shaders declared that the pipeline never listed.
    ///
    /// They are appended to set 0 - created when the plan has no set - as uniform bindings under
    /// their own names and the binding numbers reserved for them, and the set is then sorted by
    /// binding number, bindings with equal numbers keeping their order. Whether the plan has
    /// uniforms is then worked out again from the sets it now has - a plan that gained a block has
    /// uniforms - and the salt, which folds that in, is refreshed with it. With nothing to add the
    /// plan is left exactly as it was.
    pub fn add_implicit_uniforms(&mut self, implicit: &Vec<(String, u32)>)
        ensures
            implicit@.len() == 0 ==> *final(self) == *old(self),
            implicit@.len() > 0 ==> {
                &&& final(self).name == old(self).name
                &&& sets_view(final(self).sets@) == with_implicit(
                    sets_view(old(self).sets@),
                    implicit_views(implicit@),
                )
                &&& final(self).has_uniforms == any_uniform(sets_view(final(self).sets@))
                &&& final(self).has_uniforms
                &&& final(self).salt == spec_salt(
                    vstd::utf8::encode_utf8(final(self).name@),
                    final(self).has_uniforms,
                )
            },
    {
        if implicit.len() == 0 {
            return;
        }
        let ghost unsorted = sets_view(self.sets@);
        if self.sets.len() == 0 {
            let empty: Vec<PlannedBinding> = Vec::new();
            assert(set_views(empty@) =~= Seq::<BindingView>::empty());
            self.sets.push(empty);
            assert(sets_view(self.sets@)[0] == set_views(empty@));
            assert(sets_view(self.sets@) =~= seq![Seq::<BindingView>::empty()]);
        }
        let ghost base = sets_view(self.sets@);
        assert(base == (if unsorted.len() == 0 {
            seq![Seq::<BindingView>::empty()]
        } else {
            unsorted
        }));
        let ghost before = self.sets@;

        let mut first: Vec<PlannedBinding> = Vec::new();
        std::mem::swap(&mut first, &mut self.sets[0]);
        assert(set_views(first@) == base[0]) by {
            assert(sets_view(before)[0] == set_views(before[0]@));
        }
        let ghost extra = implicit_views(implicit@);
        let mut i: usize = 0;
        while i < implicit.len()
            invariant
                i <= implicit.len(),
                extra == implicit_views(implicit@),
                base.len() > 0,
                set_views(first@) == base[0] + extra.take(i as int),
            decreases implicit.len() - i,
        {
            let name = implicit[i].0.clone();
            let declared = implicit[i].0.clone();
            let ghost prev = set_views(first@);
            first.push(
                PlannedBinding {
                    name,
                    declared_name: declared,
                    resource: PlannedResource::Uniform { min_size: None },
                    binding: implicit[i].1,
                },
            );
            assert(set_views(first@) =~= prev.push(extra[i as int]));
            assert(extra.take(i as int + 1) =~= extra.take(i as int).push(extra[i as int]));
            i = i + 1;
        }
        assert(extra.take(implicit.len() as int) =~= extra);
        let mut sorted = sort_set(first);
        std::mem::swap(&mut sorted, &mut self.sets[0]);
        assert forall|t: int| 0 < t < before.len() implies #[trigger] self.sets@[t] == before[t] by {}
        assert(sets_view(self.sets@) =~= base.update(0, sort_by_binding(base[0] + extra))) by {
            assert forall|t: int| 0 <= t < base.len() implies #[trigger] sets_view(self.sets@)[t]
                == base.update(0, sort_by_binding(base[0] + extra))[t] by {
                if t > 0 {
                    assert(sets_view(before)[t] == set_views(before[t]@));
                }
            }
        }
        proof {
            let all = base[0] + extra;
            assert(all.last() == extra[extra.len() - 1]);
            lemma_sort_keeps_last(all);
            let sorted0 = sort_by_binding(all);
            let j = choose|j: int| 0 <= j < sorted0.len() && sorted0[j] == all.last();
            assert(sets_view(self.sets@)[0] == sorted0);
            assert(is_uniform(sets_view(self.sets@)[0][j].2));
        }
        self.refresh_uniforms();
    }

    /// Works out again whether the plan has uniforms, and the salt that goes with it.
    fn refresh_uniforms(&mut self)
        ensures
            final(self).name == old(self).name,
            final(self).sets == old(self).sets,
            final(self).has_uniforms == any_uniform(sets_view(final(self).sets@)),
            final(self).salt == spec_salt(
                vstd::utf8::encode_utf8(final(self).name@),
                final(self).has_uniforms,
            ),
    {
        let has_uniforms = plan_has_uniforms(&self.sets);
        let salt = plan_salt(self.name.as_str(), has_uniforms);
        self.has_uniforms = has_uniforms;
        self.salt = salt;
    }
}

/// `x` is somewhere in `s` once inserted.
proof fn lemma_insert_keeps_item(s: Seq<BindingView>, x: BindingView)
    ensures
        exists|j: int| 0 <= j < insert_by_binding(s, x).len() && insert_by_binding(s, x)[j] == x,
    decreases s.len(),
{
    if s.len() == 0 {
        assert(insert_by_binding(s, x)[0] == x);
    } else if x.3 < s[0].3 {
        assert(insert_by_binding(s, x)[0] == x);
    } else {
        lemma_insert_keeps_item(s.drop_first(), x);
        let r = insert_by_binding(s.drop_first(), x);
        let j = choose|j: int| 0 <= j < r.len() && r[j] == x;
        assert(insert_by_binding(s, x)[j + 1] == x);
    }
}

/// The last binding of a set is still there once the set is sorted.
proof fn lemma_sort_keeps_last(s: Seq<BindingView>)
    requires
        s.len() > 0,
    ensures
        exists|j: int| 0 <= j < sort_by_binding(s).len() && sort_by_binding(s)[j] == s.last(),
{
    let r = insert_by_binding(sort_by_binding(s.drop_last()), s.last());
    assert(sort_by_binding(s) == r);
    lemma_insert_keeps_item(sort_by_binding(s.drop_last()), s.last());
    let j = choose|j: int| 0 <= j < r.len() && r[j] == s.last();
    assert(sort_by_binding(s)[j] == s.last());
}

/// A set sorted by [`sort_by_binding`] is in binding order.
pub proof fn lemma_sorted_sets_are_in_binding_order(s: Seq<BindingView>)
    ensures
        forall|i: int, j: int|
            0 <= i < j < sort_by_binding(s).len() ==> #[trigger] sort_by_binding(s)[i].3
                <= #[trigger] sort_by_binding(s)[j].3,
        sort_by_binding(s).len() == s.len(),
    decreases s.len(),
{
    if s.len() > 0 {
        lemma_sorted_sets_are_in_binding_order(s.drop_last());
        lemma_insert_keeps_order(sort_by_binding(s.drop_last()), s.last());
    }
}

/// Inserting by binding number into a list in binding order keeps it in binding order.
proof fn lemma_insert_keeps_order(s: Seq<BindingView>, x: BindingView)
    requires
        forall|i: int, j: int| 0 <= i < j < s.len() ==> #[trigger] s[i].3 <= #[trigger] s[j].3,
    ensures
        forall|i: int, j: int|
            0 <= i < j < insert_by_binding(s, x).len() ==> #[trigger] insert_by_binding(s, x)[i].3
                <= #[trigger] insert_by_binding(s, x)[j].3,
        insert_by_binding(s, x).len() == s.len() + 1,
    decreases s.len(),
{
    if s.len() > 0 && x.3 >= s[0].3 {
        let rest = s.drop_first();
        assert forall|i: int, j: int| 0 <= i < j < rest.len() implies #[trigger] rest[i].3
            <= #[trigger] rest[j].3 by {
            assert(s[i + 1].3 <= s[j + 1].3);
        }
        lemma_insert_keeps_order(rest, x);
        let t = insert_by_binding(rest, x);
        assert forall|k: int| 0 <= k < t.len() implies s[0].3 <= (#[trigger] t[k]).3 by {
            lemma_insert_members(rest, x, k);
            if t[k] != x {
                let m = choose|m: int| 0 <= m < rest.len() && rest[m] == t[k];
                assert(s[0].3 <= s[m + 1].3);
            }
        }
    }
}

/// Every member of an insertion is the inserted binding or a member of the list.
proof fn lemma_insert_members(s: Seq<BindingView>, x: BindingView, k: int)
    requires
        0 <= k < insert_by_binding(s, x).len(),
    ensures
        insert_by_binding(s, x)[k] == x || exists|m: int|
            0 <= m < s.len() && s[m] == insert_by_binding(s, x)[k],
        insert_by_binding(s, x).len() == s.len() + 1,
    decreases s.len(),
{
    if s.len() == 0 {
    } else if x.3 < s[0].3 {
        if k > 0 {
            assert(s[k - 1] == insert_by_binding(s, x)[k]);
        }
    } else {
        let rest = s.drop_first();
        if k > 0 {
            lemma_insert_members(rest, x, k - 1);
            if insert_by_binding(s, x)[k] != x {
                let m = choose|m: int| 0 <= m < rest.len() && rest[m] == insert_by_binding(rest, x)[k - 1];
                assert(s[m + 1] == insert_by_binding(s, x)[k]);
            }
        } else {
            assert(s[0] == insert_by_binding(s, x)[0]);
        }
        lemma_insert_members(rest, x, 0);
    }
}

// ---------------------------------------------------------------------------------------------
// A draw's bindings
// ---------------------------------------------------------------------------------------------

/// One slot of a draw, as the draw path resolved it: what the JVM said it bound there, the address
/// of that resource (zero when nothing is bound), the slice it named, and the size of the buffer it
/// named (zero for the other kinds).
#[derive(Clone, Copy, Debug, PartialEq, Eq, Structural)]
pub struct SlotEntry {
    pub kind: u32,
    pub address: usize,
    pub offset: u64,
    pub length: u64,
    pub buffer_size: u64,
}

/// What a slot the draw did not fill in reads as.
pub open spec fn no_binding() -> SlotEntry {
    SlotEntry { kind: DRAW_BINDING_NONE, address: 0, offset: 0, length: 0, buffer_size: 0 }
}

/// Slot `i` of a draw, or an empty slot past the ones it filled in.
pub open spec fn slot_at(slots: Seq<SlotEntry>, i: int) -> SlotEntry {
    if 0 <= i < slots.len() {
        slots[i]
    } else {
        no_binding()
    }
}

/// Slot `i` of a draw, or an empty slot past the ones it filled in.
fn slot_of(slots: &Vec<SlotEntry>, i: usize) -> (e: SlotEntry)
    ensures
        e == slot_at(slots@, i as int),
{
    if i < slots.len() {
        slots[i]
    } else {
        SlotEntry { kind: DRAW_BINDING_NONE, address: 0, offset: 0, length: 0, buffer_size: 0 }
    }
}

/// What decides whether a uniform's offset travels with the draw, besides the offset itself.
pub struct OffsetPolicy {
    /// The `dynamic offsets` switch.
    pub enabled: bool,
    /// When present, only uniforms bound under one of these names may carry their offset.
    pub only: Option<Vec<String>>,
}

/// The names of an offset policy's list, when it has one.
pub open spec fn only_view(only: Option<Vec<String>>) -> Option<Seq<Seq<char>>> {
    match only {
        Some(names) => Some(names@.map_values(|n: String| n@)),
        None => None,
    }
}

/// Whether the policy's list lets a uniform bound under `name` carry its offset.
pub open spec fn allowed(only: Option<Seq<Seq<char>>>, name: Seq<char>) -> bool {
    match only {
        Some(names) => names.contains(name),
        None => true,
    }
}

/// Whether `value` is a multiple of `step`, zero being a multiple only of itself.
pub open spec fn multiple_of(value: u64, step: u64) -> bool {
    if step == 0 {
        value == 0
    } else {
        value % step == 0
    }
}

/// Whether a binding's offset travels with the draw: the switch is on, the list allows it, it is a
/// uniform of a plan that has one, and the offset is aligned and fits the `u32` a dynamic offset is.
pub open spec fn spec_dynamic(
    has_uniforms: bool,
    b: BindingView,
    start: u64,
    alignment: u64,
    enabled: bool,
    only: Option<Seq<Seq<char>>>,
) -> bool {
    &&& enabled
    &&& allowed(only, b.0)
    &&& has_uniforms
    &&& is_uniform(b.2)
    &&& multiple_of(start, alignment)
    &&& start <= u32::MAX
}

/// The size to bind: what the shader reads - its declared block size when known, else the slice -
/// never past the end of the buffer, and never zero.
pub open spec fn spec_binding_size(buffer_size: u64, start: u64, end: u64, min_size: Option<u64>) -> u64 {
    let available: u64 = if buffer_size > start {
        (buffer_size - start) as u64
    } else {
        0
    };
    let wanted: u64 = match min_size {
        Some(size) => size,
        None => if end > start {
            (end - start) as u64
        } else {
            0
        },
    };
    let size: u64 = if wanted < available {
        wanted
    } else {
        available
    };
    if size < 1 {
        1
    } else {
        size
    }
}

/// The size to bind, in bytes: what the shader reads, and never past the end of the buffer.
pub fn binding_size(buffer_size: u64, start: u64, end: u64, min_size: Option<u64>) -> (size: u64)
    ensures
        size == spec_binding_size(buffer_size, start, end, min_size),
{
    let available = buffer_size.saturating_sub(start);
    let wanted = match min_size {
        Some(size) => size,
        None => end.saturating_sub(start),
    };
    let size = if wanted < available {
        wanted
    } else {
        available
    };
    if size < 1 {
        1
    } else {
        size
    }
}

/// Whether a name is on a list.
fn listed(names: &Vec<String>, name: &String) -> (r: bool)
    ensures
        r == names@.map_values(|n: String| n@).contains(name@),
{
    let ghost v = names@.map_values(|n: String| n@);
    let mut i: usize = 0;
    while i < names.len()
        invariant
            i <= names.len(),
            v == names@.map_values(|n: String| n@),
            forall|k: int| 0 <= k < i ==> (#[trigger] v[k]) != name@,
        decreases names.len() - i,
    {
        if names[i] == *name {
            assert(v[i as int] == name@);
            return true;
        }
        i = i + 1;
    }
    false
}

/// Whether a uniform binding can carry its offset dynamically.
pub fn dynamic_offset(
    plan: &BindGroupPlan,
    binding: &PlannedBinding,
    start: u64,
    alignment: u64,
    policy: &OffsetPolicy,
) -> (r: bool)
    ensures
        r == spec_dynamic(
            plan.has_uniforms,
            view_of(*binding),
            start,
            alignment,
            policy.enabled,
            only_view(policy.only),
        ),
{
    let allowed = match &policy.only {
        Some(names) => listed(names, &binding.name),
        None => true,
    };
    let aligned = if alignment == 0 {
        start == 0
    } else {
        start % alignment == 0
    };
    let uniform = match binding.resource {
        PlannedResource::Uniform { .. } => true,
        _ => false,
    };
    policy.enabled && allowed && plan.has_uniforms && uniform && aligned && start <= 0xffff_ffff
}

/// Every binding of every set, in slot order.
pub open spec fn flat(sets: Seq<Seq<BindingView>>) -> Seq<BindingView>
    decreases sets.len(),
{
    if sets.len() == 0 {
        Seq::empty()
    } else {
        flat(sets.drop_last()) + sets.last()
    }
}

/// Whether the draw bound what the plan expects in every slot of the plan: the right kind of
/// resource, and one that is there. A draw that fails this is a bug on the JVM side.
pub open spec fn slots_match(sets: Seq<Seq<BindingView>>, slots: Seq<SlotEntry>) -> bool {
    forall|j: int|
        0 <= j < flat(sets).len() ==> (#[trigger] slot_at(slots, j)).kind == spec_kind_of(
            flat(sets)[j].2,
        ) && slot_at(slots, j).address != 0
}

/// Whether no slot's slice runs past the end of the address space.
pub open spec fn slices_fit(slots: Seq<SlotEntry>) -> bool {
    forall|i: int| 0 <= i < slots.len() ==> (#[trigger] slots[i]).offset + slots[i].length <= u64::MAX
}

/// What one binding adds to a draw's key, and the dynamic offset it hands over if it is a uniform.
///
/// A numbered draw's key already covers everything but the offsets of uniforms, so only an offset
/// that does not travel is folded in. An unnumbered draw folds in the slot and binding number and
/// the resources: a buffer's address and bound size, a baked offset, a view's or sampler's address.
pub open spec fn step(
    key: u64,
    set: int,
    b: BindingView,
    e: SlotEntry,
    numbering: bool,
    has_uniforms: bool,
    alignment: u64,
    enabled: bool,
    only: Option<Seq<Seq<char>>>,
) -> (u64, Option<u32>) {
    let start = e.offset;
    let end = (e.offset + e.length) as u64;
    let dynamic = spec_dynamic(has_uniforms, b, start, alignment, enabled, only);
    let k1 = if numbering {
        key
    } else {
        spec_fold(key, (((set as u64) << 32u64) | (b.3 as u64)) as u64)
    };
    match b.2 {
        PlannedResource::Uniform { min_size } => {
            let k2 = if numbering {
                k1
            } else {
                spec_fold(
                    spec_fold(k1, e.address as u64),
                    spec_binding_size(e.buffer_size, start, end, min_size),
                )
            };
            if dynamic {
                (k2, Some(start as u32))
            } else {
                (spec_fold(k2, start), Some(0u32))
            }
        },
        PlannedResource::Storage => if numbering {
            (k1, None)
        } else {
            (
                spec_fold(
                    spec_fold(spec_fold(k1, e.address as u64), spec_binding_size(e.buffer_size, start, end, None)),
                    start,
                ),
                None,
            )
        },
        _ => if numbering {
            (k1, None)
        } else {
            (spec_fold(k1, e.address as u64), None)
        },
    }
}

/// The key and dynamic offsets after the first bindings of set `set`, whose first slot is `base`.
pub open spec fn walk_set(
    key: u64,
    set: int,
    bindings: Seq<BindingView>,
    base: int,
    slots: Seq<SlotEntry>,
    numbering: bool,
    has_uniforms: bool,
    alignment: u64,
    enabled: bool,
    only: Option<Seq<Seq<char>>>,
) -> (u64, Seq<u32>)
    decreases bindings.len(),
{
    if bindings.len() == 0 {
        (key, Seq::empty())
    } else {
        let before = walk_set(key, set, bindings.drop_last(), base, slots, numbering, has_uniforms, alignment, enabled, only);
        let after = step(
            before.0,
            set,
            bindings.last(),
            slot_at(slots, base + bindings.len() - 1),
            numbering,
            has_uniforms,
            alignment,
            enabled,
            only,
        );
        (
            after.0,
            match after.1 {
                Some(offset) => before.1.push(offset),
                None => before.1,
            },
        )
    }
}

/// The key and the dynamic offsets of every set after walking the given sets.
pub open spec fn walk_sets(
    key: u64,
    sets: Seq<Seq<BindingView>>,
    slots: Seq<SlotEntry>,
    numbering: bool,
    has_uniforms: bool,
    alignment: u64,
    enabled: bool,
    only: Option<Seq<Seq<char>>>,
) -> (u64, Seq<Seq<u32>>)
    decreases sets.len(),
{
    if sets.len() == 0 {
        (key, Seq::empty())
    } else {
        let before = walk_sets(key, sets.drop_last(), slots, numbering, has_uniforms, alignment, enabled, only);
        let this = walk_set(
            before.0,
            sets.len() - 1,
            sets.last(),
            flat(sets.drop_last()).len() as int,
            slots,
            numbering,
            has_uniforms,
            alignment,
            enabled,
            only,
        );
        (this.0, before.1.push(this.1))
    }
}

/// Whether a binding's slot lies wholly inside its buffer: from its offset, the declared block
/// size of a uniform that has one, or else the slice's length. Other resources have no such bound.
pub open spec fn within_buffer(b: BindingView, e: SlotEntry) -> bool {
    match b.2 {
        PlannedResource::Uniform { min_size } => match min_size {
            Some(size) => e.offset + size <= e.buffer_size,
            None => e.offset + e.length <= e.buffer_size,
        },
        _ => true,
    }
}

/// Whether two draws' slots for a binding are the same but for a uniform's offset, which travels
/// with each draw: same resource, slice length and buffer, and an offset that is dynamic and keeps
/// the slot inside its buffer on both sides.
pub open spec fn same_but_dynamic_offset(
    b: BindingView,
    e1: SlotEntry,
    e2: SlotEntry,
    has_uniforms: bool,
    alignment: u64,
    enabled: bool,
    only: Option<Seq<Seq<char>>>,
) -> bool {
    ||| e1 == e2
    ||| {
        &&& is_uniform(b.2)
        &&& e1.kind == e2.kind
        &&& e1.address == e2.address
        &&& e1.length == e2.length
        &&& e1.buffer_size == e2.buffer_size
        &&& spec_dynamic(has_uniforms, b, e1.offset, alignment, enabled, only)
        &&& spec_dynamic(has_uniforms, b, e2.offset, alignment, enabled, only)
        &&& within_buffer(b, e1)
        &&& within_buffer(b, e2)
    }
}

/// Whether two draws under one plan differ at most in the dynamic offsets of uniforms.
pub open spec fn differ_in_dynamic_offsets(
    sets: Seq<Seq<BindingView>>,
    slots1: Seq<SlotEntry>,
    slots2: Seq<SlotEntry>,
    has_uniforms: bool,
    alignment: u64,
    enabled: bool,
    only: Option<Seq<Seq<char>>>,
) -> bool {
    forall|j: int|
        0 <= j < flat(sets).len() ==> #[trigger] same_but_dynamic_offset(
            flat(sets)[j],
            slot_at(slots1, j),
            slot_at(slots2, j),
            has_uniforms,
            alignment,
            enabled,
            only,
        )
}

/// One binding adds the same to the key for two slots that differ only in a dynamic offset.
proof fn lemma_step_ignores_dynamic_offset(
    key: u64,
    set: int,
    b: BindingView,
    e1: SlotEntry,
    e2: SlotEntry,
    numbering: bool,
    has_uniforms: bool,
    alignment: u64,
    enabled: bool,
    only: Option<Seq<Seq<char>>>,
)
    requires
        same_but_dynamic_offset(b, e1, e2, has_uniforms, alignment, enabled, only),
    ensures
        step(key, set, b, e1, numbering, has_uniforms, alignment, enabled, only).0 == step(
            key,
            set,
            b,
            e2,
            numbering,
            has_uniforms,
            alignment,
            enabled,
            only,
        ).0,
        step(key, set, b, e1, numbering, has_uniforms, alignment, enabled, only).1 is Some
            == step(key, set, b, e2, numbering, has_uniforms, alignment, enabled, only).1 is Some,
{
    if e1 != e2 {
        match b.2 {
            PlannedResource::Uniform { min_size } => {
                let end1 = (e1.offset + e1.length) as u64;
                let end2 = (e2.offset + e2.length) as u64;
                assert(spec_binding_size(e1.buffer_size, e1.offset, end1, min_size)
                    == spec_binding_size(e2.buffer_size, e2.offset, end2, min_size));
            },
            _ => {},
        }
    }
}

/// Walking a set's bindings gives the same key, and as many offsets, for two draws that differ
/// only in dynamic offsets.
proof fn lemma_walk_set_ignores_dynamic_offsets(
    key: u64,
    set: int,
    bindings: Seq<BindingView>,
    base: int,
    slots1: Seq<SlotEntry>,
    slots2: Seq<SlotEntry>,
    numbering: bool,
    has_uniforms: bool,
    alignment: u64,
    enabled: bool,
    only: Option<Seq<Seq<char>>>,
)
    requires
        forall|i: int|
            0 <= i < bindings.len() ==> #[trigger] same_but_dynamic_offset(
                bindings[i],
                slot_at(slots1, base + i),
                slot_at(slots2, base + i),
                has_uniforms,
                alignment,
                enabled,
                only,
            ),
    ensures
        walk_set(key, set, bindings, base, slots1, numbering, has_uniforms, alignment, enabled, only).0
            == walk_set(key, set, bindings, base, slots2, numbering, has_uniforms, alignment, enabled, only).0,
        walk_set(key, set, bindings, base, slots1, numbering, has_uniforms, alignment, enabled, only).1.len()
            == walk_set(key, set, bindings, base, slots2, numbering, has_uniforms, alignment, enabled, only).1.len(),
    decreases bindings.len(),
{
    if bindings.len() > 0 {
        let rest = bindings.drop_last();
        assert forall|i: int| 0 <= i < rest.len() implies #[trigger] same_but_dynamic_offset(
            rest[i],
            slot_at(slots1, base + i),
            slot_at(slots2, base + i),
            has_uniforms,
            alignment,
            enabled,
            only,
        ) by {
            assert(rest[i] == bindings[i]);
        }
        lemma_walk_set_ignores_dynamic_offsets(
            key, set, rest, base, slots1, slots2, numbering, has_uniforms, alignment, enabled, only,
        );
        let k = walk_set(key, set, rest, base, slots1, numbering, has_uniforms, alignment, enabled, only).0;
        let last = bindings.len() - 1;
        assert(same_but_dynamic_offset(
            bindings[last],
            slot_at(slots1, base + last),
            slot_at(slots2, base + last),
            has_uniforms,
            alignment,
            enabled,
            only,
        ));
        lemma_step_ignores_dynamic_offset(
            k,
            set,
            bindings.last(),
            slot_at(slots1, base + last),
            slot_at(slots2, base + last),
            numbering,
            has_uniforms,
            alignment,
            enabled,
            only,
        );
    }
}

/// Draws that differ only in the dynamic offsets of their uniforms fold to the same key, and hand
/// over as many offsets per set: an offset that travels with the draw is not part of the key, so
/// such draws share their bind groups and only the offsets differ.
pub proof fn lemma_dynamic_offsets_share_a_key(
    key: u64,
    sets: Seq<Seq<BindingView>>,
    slots1: Seq<SlotEntry>,
    slots2: Seq<SlotEntry>,
    numbering: bool,
    has_uniforms: bool,
    alignment: u64,
    enabled: bool,
    only: Option<Seq<Seq<char>>>,
)
    requires
        differ_in_dynamic_offsets(sets, slots1, slots2, has_uniforms, alignment, enabled, only),
    ensures
        walk_sets(key, sets, slots1, numbering, has_uniforms, alignment, enabled, only).0 == walk_sets(
            key,
            sets,
            slots2,
            numbering,
            has_uniforms,
            alignment,
            enabled,
            only,
        ).0,
        walk_sets(key, sets, slots1, numbering, has_uniforms, alignment, enabled, only).1.len()
            == sets.len(),
        walk_sets(key, sets, slots2, numbering, has_uniforms, alignment, enabled, only).1.len()
            == sets.len(),
        forall|s: int|
            0 <= s < sets.len() ==> (#[trigger] walk_sets(
                key,
                sets,
                slots1,
                numbering,
                has_uniforms,
                alignment,
                enabled,
                only,
            ).1[s]).len() == walk_sets(
                key,
                sets,
                slots2,
                numbering,
                has_uniforms,
                alignment,
                enabled,
                only,
            ).1[s].len(),
    decreases sets.len(),
{
    if sets.len() > 0 {
        let front = sets.drop_last();
        let n = flat(front).len() as int;
        assert(flat(sets) == flat(front) + sets.last());
        assert forall|j: int| 0 <= j < flat(front).len() implies #[trigger] same_but_dynamic_offset(
            flat(front)[j],
            slot_at(slots1, j),
            slot_at(slots2, j),
            has_uniforms,
            alignment,
            enabled,
            only,
        ) by {
            assert(flat(sets)[j] == flat(front)[j]);
            assert(same_but_dynamic_offset(
                flat(sets)[j],
                slot_at(slots1, j),
                slot_at(slots2, j),
                has_uniforms,
                alignment,
                enabled,
                only,
            ));
        }
        lemma_dynamic_offsets_share_a_key(
            key, front, slots1, slots2, numbering, has_uniforms, alignment, enabled, only,
        );
        let last = sets.last();
        assert forall|i: int| 0 <= i < last.len() implies #[trigger] same_but_dynamic_offset(
            last[i],
            slot_at(slots1, n + i),
            slot_at(slots2, n + i),
            has_uniforms,
            alignment,
            enabled,
            only,
        ) by {
            assert(flat(sets)[n + i] == last[i]);
            assert(same_but_dynamic_offset(
                flat(sets)[n + i],
                slot_at(slots1, n + i),
                slot_at(slots2, n + i),
                has_uniforms,
                alignment,
                enabled,
                only,
            ));
        }
        let k = walk_sets(key, front, slots1, numbering, has_uniforms, alignment, enabled, only).0;
        lemma_walk_set_ignores_dynamic_offsets(
            k,
            sets.len() - 1,
            last,
            n,
            slots1,
            slots2,
            numbering,
            has_uniforms,
            alignment,
            enabled,
            only,
        );
        let w1 = walk_sets(key, sets, slots1, numbering, has_uniforms, alignment, enabled, only);
        let w2 = walk_sets(key, sets, slots2, numbering, has_uniforms, alignment, enabled, only);
        let f1 = walk_sets(key, front, slots1, numbering, has_uniforms, alignment, enabled, only);
        let f2 = walk_sets(key, front, slots2, numbering, has_uniforms, alignment, enabled, only);
        assert forall|s: int| 0 <= s < sets.len() implies (#[trigger] w1.1[s]).len() == w2.1[s].len() by {
            if s < sets.len() - 1 {
                assert(w1.1[s] == f1.1[s]);
                assert(w2.1[s] == f2.1[s]);
            }
        }
    }
}

/// What a draw's bindings fold to, and the dynamic offsets each set hands over.
pub struct CallFold {
    /// The key the draw's bind groups are found under.
    pub key: u64,
    /// The dynamic offsets of each set, in binding order.
    pub offsets: Vec<Vec<u32>>,
    /// Set when the draw came numbered without its table and the plan has a binding whose offset
    /// travels: it cannot be answered, and the JVM draws again with the table.
    pub refused: bool,
}

/// The key a draw starts from: the JVM's number, tagged, or the plan's salt.
pub open spec fn start_key(salt: u64, combo: u32) -> u64 {
    if combo != 0 {
        COMBO_TAG | (combo as u64)
    } else {
        salt
    }
}

/// The offset lists as plain values.
pub open spec fn offset_views(v: Seq<Vec<u32>>) -> Seq<Seq<u32>> {
    v.map_values(|o: Vec<u32>| o@)
}

/// `n` empty offset lists.
pub open spec fn empty_offsets(n: nat) -> Seq<Seq<u32>> {
    Seq::new(n, |i: int| Seq::<u32>::empty())
}

/// The first `s` sets' bindings come first in slot order.
proof fn lemma_flat_prefix(sets: Seq<Seq<BindingView>>, s: int, k: int)
    requires
        0 <= s <= sets.len(),
        0 <= k < flat(sets.take(s)).len(),
    ensures
        k < flat(sets).len(),
        flat(sets)[k] == flat(sets.take(s))[k],
    decreases sets.len() - s,
{
    if s < sets.len() {
        let t = sets.take(s + 1);
        assert(t.drop_last() =~= sets.take(s));
        assert(flat(t) == flat(sets.take(s)) + sets[s]);
        lemma_flat_prefix(sets, s + 1, k);
    } else {
        assert(sets.take(s) =~= sets);
    }
}

impl BindGroupPlan {
    /// Works out what a draw's bindings fold to, and the dynamic offsets each set hands over.
    ///
    /// A draw numbered by the JVM (`combo` not zero) starts from that number, tagged so it cannot
    /// meet a folded key; one that is not starts from the plan's salt. A numbered draw that came
    /// without its binding table is answered from the number alone when its plan has no uniform -
    /// no offsets at all - and refused when it has one. Otherwise every binding is walked in slot
    /// order, as [`step`] says.
    #[verifier::rlimit(40)]
    pub fn fold_call(
        &self,
        combo: u32,
        bindings_present: u32,
        slots: &Vec<SlotEntry>,
        alignment: u64,
        policy: &OffsetPolicy,
    ) -> (r: CallFold)
        requires
            flat(sets_view(self.sets@)).len() < usize::MAX,
            slices_fit(slots@),
            combo == 0 ==> slots_match(sets_view(self.sets@), slots@),
        ensures
            ({
                let v = sets_view(self.sets@);
                let numbering = combo != 0;
                let key = start_key(self.salt, combo);
                if numbering && bindings_present == 0 {
                    &&& r.key == key
                    &&& r.refused == self.has_uniforms
                    &&& !self.has_uniforms ==> offset_views(r.offsets@)
                        == empty_offsets(v.len())
                } else {
                    let walked = walk_sets(
                        key,
                        v,
                        slots@,
                        numbering,
                        self.has_uniforms,
                        alignment,
                        policy.enabled,
                        only_view(policy.only),
                    );
                    &&& !r.refused
                    &&& r.key == walked.0
                    &&& offset_views(r.offsets@) == walked.1
                }
            }),
    {
        let numbering = combo != 0;
        let start = if numbering {
            COMBO_TAG | (combo as u64)
        } else {
            self.salt
        };
        let ghost v = sets_view(self.sets@);
        let ghost only = only_view(policy.only);

        if numbering && bindings_present == 0 {
            if self.has_uniforms {
                return CallFold { key: start, offsets: Vec::new(), refused: true };
            }
            let mut offsets: Vec<Vec<u32>> = Vec::new();
            let mut s: usize = 0;
            while s < self.sets.len()
                invariant
                    s <= self.sets.len(),
                    offsets@.len() == s,
                    offset_views(offsets@) == empty_offsets(s as nat),
                decreases self.sets.len() - s,
            {
                let none: Vec<u32> = Vec::new();
                assert(none@ =~= Seq::<u32>::empty());
                let ghost prev = offsets@;
                offsets.push(none);
                assert forall|k: int| 0 <= k <= s implies #[trigger] offset_views(offsets@)[k] == Seq::<u32>::empty() by {
                    if k < s {
                        assert(offsets@[k] == prev[k]);
                        assert(offset_views(prev)[k] == empty_offsets(s as nat)[k]);
                    }
                }
                assert(offset_views(offsets@) =~= empty_offsets(s as nat + 1));
                s = s + 1;
            }
            assert(v.len() == self.sets@.len());
            return CallFold { key: start, offsets, refused: false };
        }

        let mut key = start;
        let mut offsets: Vec<Vec<u32>> = Vec::new();
        let mut slot: usize = 0;
        let mut s: usize = 0;
        assert(v.take(0) =~= Seq::<Seq<BindingView>>::empty());
        while s < self.sets.len()
            invariant
                s <= self.sets.len(),
                v == sets_view(self.sets@),
                only == only_view(policy.only),
                numbering == (combo != 0),
                flat(v).len() < usize::MAX,
                slices_fit(slots@),
                !numbering ==> slots_match(v, slots@),
                slot == flat(v.take(s as int)).len(),
                (key, offset_views(offsets@)) == walk_sets(
                    start,
                    v.take(s as int),
                    slots@,
                    numbering,
                    self.has_uniforms,
                    alignment,
                    policy.enabled,
                    only,
                ),
            decreases self.sets.len() - s,
        {
            let ghost base = slot as int;
            let ghost key_before = key;
            let ghost offsets_before = offset_views(offsets@);
            let set = &self.sets[s];
            let ghost bs = v[s as int];
            assert(bs == set_views(set@));
            let mut here: Vec<u32> = Vec::new();
            let mut i: usize = 0;
            while i < set.len()
                invariant
                    s < self.sets.len(),
                    set == &self.sets@[s as int],
                    i <= set@.len(),
                    v == sets_view(self.sets@),
                    bs == v[s as int],
                    bs == set_views(set@),
                    only == only_view(policy.only),
                    numbering == (combo != 0),
                    flat(v).len() < usize::MAX,
                    slices_fit(slots@),
                    !numbering ==> slots_match(v, slots@),
                    base == flat(v.take(s as int)).len(),
                    slot == base + i,
                    (key, here@) == walk_set(
                        key_before,
                        s as int,
                        bs.take(i as int),
                        base,
                        slots@,
                        numbering,
                        self.has_uniforms,
                        alignment,
                        policy.enabled,
                        only,
                    ),
                decreases set@.len() - i,
            {
                let binding = &set[i];
                let ghost b = bs[i as int];
                assert(b == view_of(*binding));
                let entry = slot_of(slots, slot);
                proof {
                    let t = v.take(s as int + 1);
                    assert(t.drop_last() =~= v.take(s as int));
                    assert(flat(t) == flat(v.take(s as int)) + bs);
                    assert(flat(t)[slot as int] == b);
                    lemma_flat_prefix(v, s as int + 1, slot as int);
                    if 0 <= slot < slots@.len() {
                        assert(slices_fit(slots@) ==> slots@[slot as int].offset + slots@[slot as int].length <= u64::MAX);
                    }
                }
                assert(entry.offset + entry.length <= u64::MAX);
                if !numbering {
                    assert(entry == slot_at(slots@, slot as int));
                    assert(entry.kind == spec_kind_of(b.2) && entry.address != 0);
                    #[verifier::truncate]
                    let position = ((s as u64) << 32u64) | (binding.binding as u64);
                    key = fold(key, position);
                }
                slot = slot + 1;
                let ghost k_prev = key;
                match binding.resource {
                    PlannedResource::Uniform { min_size } => {
                        let range_start = entry.offset;
                        let range_end = entry.offset + entry.length;
                        if !numbering {
                            let size = binding_size(entry.buffer_size, range_start, range_end, min_size);
                            key = fold(key, entry.address as u64);
                            key = fold(key, size);
                        }
                        if dynamic_offset(self, binding, range_start, alignment, policy) {
                            here.push(range_start as u32);
                        } else {
                            key = fold(key, range_start);
                            here.push(0);
                        }
                    },
                    PlannedResource::Storage => {
                        if !numbering {
                            let range_start = entry.offset;
                            let range_end = entry.offset + entry.length;
                            key = fold(key, entry.address as u64);
                            key = fold(key, binding_size(entry.buffer_size, range_start, range_end, None));
                            key = fold(key, range_start);
                        }
                    },
                    _ => {
                        if !numbering {
                            key = fold(key, entry.address as u64);
                        }
                    },
                }
                proof {
                    let t = bs.take(i as int + 1);
                    assert(t.drop_last() =~= bs.take(i as int));
                    assert(t.last() == b);
                }
                i = i + 1;
            }
            assert(bs.take(set@.len() as int) =~= bs);
            proof {
                let t = v.take(s as int + 1);
                assert(t.drop_last() =~= v.take(s as int));
                assert(t.last() == bs);
                assert(flat(t) == flat(v.take(s as int)) + bs);
            }
            offsets.push(here);
            assert(offset_views(offsets@) =~= offsets_before.push(here@));
            s = s + 1;
        }
        assert(v.take(self.sets.len() as int) =~= v);
        CallFold { key, offsets, refused: false }
    }
}

/// One entry of a bind group, as the draw builds it: the binding, the resource's address, and for
/// a buffer the offset and size bound.
#[derive(Clone, Copy, Debug, PartialEq, Eq, Structural)]
pub struct GroupEntry {
    pub binding: u32,
    pub address: usize,
    pub offset: u64,
    pub size: u64,
}

/// The bind group entry for a binding: a uniform whose offset travels is bound at offset zero, any
/// other buffer at its own offset; views and samplers are bound by address alone.
pub open spec fn entry_for(
    b: BindingView,
    e: SlotEntry,
    has_uniforms: bool,
    alignment: u64,
    enabled: bool,
    only: Option<Seq<Seq<char>>>,
) -> GroupEntry {
    let start = e.offset;
    let end = (e.offset + e.length) as u64;
    match b.2 {
        PlannedResource::Uniform { min_size } => GroupEntry {
            binding: b.3 as u32,
            address: e.address,
            offset: if spec_dynamic(has_uniforms, b, start, alignment, enabled, only) {
                0
            } else {
                start
            },
            size: spec_binding_size(e.buffer_size, start, end, min_size),
        },
        PlannedResource::Storage => GroupEntry {
            binding: b.3 as u32,
            address: e.address,
            offset: start,
            size: spec_binding_size(e.buffer_size, start, end, None),
        },
        _ => GroupEntry { binding: b.3 as u32, address: e.address, offset: 0, size: 0 },
    }
}

impl BindGroupPlan {
    /// Whether a draw bound what this plan expects in every slot.
    #[verifier::rlimit(40)]
    pub fn check_slots(&self, slots: &Vec<SlotEntry>) -> (r: bool)
        requires
            flat(sets_view(self.sets@)).len() < usize::MAX,
        ensures
            r == slots_match(sets_view(self.sets@), slots@),
    {
        let ghost v = sets_view(self.sets@);
        let mut slot: usize = 0;
        let mut s: usize = 0;
        assert(v.take(0) =~= Seq::<Seq<BindingView>>::empty());
        while s < self.sets.len()
            invariant
                s <= self.sets.len(),
                v == sets_view(self.sets@),
                flat(v).len() < usize::MAX,
                slot == flat(v.take(s as int)).len(),
                forall|j: int|
                    0 <= j < slot ==> (#[trigger] slot_at(slots@, j)).kind == spec_kind_of(
                        flat(v)[j].2,
                    ) && slot_at(slots@, j).address != 0,
            decreases self.sets.len() - s,
        {
            let set = &self.sets[s];
            let ghost bs = v[s as int];
            let ghost base = slot as int;
            assert(bs == set_views(set@));
            let mut i: usize = 0;
            while i < set.len()
                invariant
                    s < self.sets.len(),
                    set == &self.sets@[s as int],
                    i <= set@.len(),
                    v == sets_view(self.sets@),
                    bs == v[s as int],
                    bs == set_views(set@),
                    flat(v).len() < usize::MAX,
                    base == flat(v.take(s as int)).len(),
                    slot == base + i,
                    forall|j: int|
                        0 <= j < slot ==> (#[trigger] slot_at(slots@, j)).kind == spec_kind_of(
                            flat(v)[j].2,
                        ) && slot_at(slots@, j).address != 0,
                decreases set@.len() - i,
            {
                let ghost b = bs[i as int];
                assert(b == view_of(set@[i as int]));
                proof {
                    let t = v.take(s as int + 1);
                    assert(t.drop_last() =~= v.take(s as int));
                    assert(flat(t) == flat(v.take(s as int)) + bs);
                    assert(flat(t)[slot as int] == b);
                    lemma_flat_prefix(v, s as int + 1, slot as int);
                }
                let entry = slot_of(slots, slot);
                let kind = PlanBinding::kind_of(&set[i].resource);
                if entry.kind != kind || entry.address == 0 {
                    assert(!(slot_at(slots@, slot as int).kind == spec_kind_of(flat(v)[slot as int].2)
                        && slot_at(slots@, slot as int).address != 0));
                    return false;
                }
                slot = slot + 1;
                i = i + 1;
            }
            proof {
                let t = v.take(s as int + 1);
                assert(t.drop_last() =~= v.take(s as int));
                assert(bs.len() == set@.len());
            }
            s = s + 1;
        }
        assert(v.take(self.sets.len() as int) =~= v);
        true
    }

    /// The entries of each set's bind group for a draw, in binding order.
    pub fn group_entries(&self, slots: &Vec<SlotEntry>, alignment: u64, policy: &OffsetPolicy) -> (groups:
        Vec<Vec<GroupEntry>>)
        requires
            flat(sets_view(self.sets@)).len() < usize::MAX,
            slices_fit(slots@),
            slots_match(sets_view(self.sets@), slots@),
        ensures
            groups@.len() == self.sets@.len(),
            forall|s: int|
                0 <= s < groups@.len() ==> (#[trigger] groups@[s])@.len() == sets_view(
                    self.sets@,
                )[s].len(),
            forall|s: int, i: int|
                0 <= s < groups@.len() && 0 <= i < groups@[s]@.len() ==> #[trigger] groups@[s]@[i]
                    == expected_entry(
                    sets_view(self.sets@),
                    slots@,
                    s,
                    i,
                    self.has_uniforms,
                    alignment,
                    policy.enabled,
                    only_view(policy.only),
                ),
    {
        let ghost v = sets_view(self.sets@);
        let ghost only = only_view(policy.only);
        let mut groups: Vec<Vec<GroupEntry>> = Vec::new();
        let mut slot: usize = 0;
        let mut s: usize = 0;
        assert(v.take(0) =~= Seq::<Seq<BindingView>>::empty());
        while s < self.sets.len()
            invariant
                s <= self.sets.len(),
                v == sets_view(self.sets@),
                only == only_view(policy.only),
                flat(v).len() < usize::MAX,
                slices_fit(slots@),
                slots_match(v, slots@),
                slot == flat(v.take(s as int)).len(),
                groups@.len() == s,
                forall|t: int| 0 <= t < s ==> (#[trigger] groups@[t])@.len() == v[t].len(),
                forall|t: int, i: int|
                    0 <= t < s && 0 <= i < groups@[t]@.len() ==> #[trigger] groups@[t]@[i]
                        == expected_entry(v, slots@, t, i, self.has_uniforms, alignment, policy.enabled, only),
            decreases self.sets.len() - s,
        {
            let set = &self.sets[s];
            let ghost bs = v[s as int];
            let ghost base = slot as int;
            assert(bs == set_views(set@));
            let mut entries: Vec<GroupEntry> = Vec::new();
            let mut i: usize = 0;
            while i < set.len()
                invariant
                    s < self.sets.len(),
                    set == &self.sets@[s as int],
                    i <= set@.len(),
                    v == sets_view(self.sets@),
                    bs == v[s as int],
                    bs == set_views(set@),
                    only == only_view(policy.only),
                    flat(v).len() < usize::MAX,
                    slices_fit(slots@),
                    slots_match(v, slots@),
                    base == flat(v.take(s as int)).len(),
                    slot == base + i,
                    entries@.len() == i,
                    forall|k: int|
                        0 <= k < i ==> #[trigger] entries@[k] == expected_entry(
                            v,
                            slots@,
                            s as int,
                            k,
                            self.has_uniforms,
                            alignment,
                            policy.enabled,
                            only,
                        ),
                decreases set@.len() - i,
            {
                let binding = &set[i];
                let ghost b = bs[i as int];
                assert(b == view_of(*binding));
                let entry = slot_of(slots, slot);
                proof {
                    let t = v.take(s as int + 1);
                    assert(t.drop_last() =~= v.take(s as int));
                    assert(flat(t) == flat(v.take(s as int)) + bs);
                    lemma_flat_prefix(v, s as int + 1, slot as int);
                    if 0 <= slot < slots@.len() {
                        assert(slots@[slot as int].offset + slots@[slot as int].length <= u64::MAX);
                    }
                }
                let range_start = entry.offset;
                let range_end = entry.offset + entry.length;
                let built = match binding.resource {
                    PlannedResource::Uniform { min_size } => {
                        let offset = if dynamic_offset(self, binding, range_start, alignment, policy) {
                            0
                        } else {
                            range_start
                        };
                        GroupEntry {
                            binding: binding.binding,
                            address: entry.address,
                            offset,
                            size: binding_size(entry.buffer_size, range_start, range_end, min_size),
                        }
                    },
                    PlannedResource::Storage => GroupEntry {
                        binding: binding.binding,
                        address: entry.address,
                        offset: range_start,
                        size: binding_size(entry.buffer_size, range_start, range_end, None),
                    },
                    _ => GroupEntry { binding: binding.binding, address: entry.address, offset: 0, size: 0 },
                };
                assert(built == expected_entry(
                    v,
                    slots@,
                    s as int,
                    i as int,
                    self.has_uniforms,
                    alignment,
                    policy.enabled,
                    only,
                ));
                entries.push(built);
                slot = slot + 1;
                i = i + 1;
            }
            proof {
                let t = v.take(s as int + 1);
                assert(t.drop_last() =~= v.take(s as int));
                assert(flat(t) == flat(v.take(s as int)) + bs);
            }
            let ghost prev = groups@;
            groups.push(entries);
            assert(forall|t: int| 0 <= t < s ==> groups@[t] == prev[t]);
            s = s + 1;
        }
        groups
    }
}

/// The bind group entry a draw's slot makes for binding `i` of set `s`.
pub open spec fn expected_entry(
    v: Seq<Seq<BindingView>>,
    slots: Seq<SlotEntry>,
    s: int,
    i: int,
    has_uniforms: bool,
    alignment: u64,
    enabled: bool,
    only: Option<Seq<Seq<char>>>,
) -> GroupEntry {
    entry_for(
        v[s][i],
        slot_at(slots, flat(v.take(s)).len() + i),
        has_uniforms,
        alignment,
        enabled,
        only,
    )
}

// ---------------------------------------------------------------------------------------------
// The slot table the JVM is handed
// ---------------------------------------------------------------------------------------------

/// A slot of the table as plain values: names, set, binding, kind and whether its offset travels.
pub type PlanBindingView = (Seq<char>, Seq<char>, u32, u32, u32, u32);

/// A slot of the table as plain values.
pub open spec fn plan_binding_view(p: PlanBinding) -> PlanBindingView {
    (p.name@, p.declared_name@, p.set, p.binding, p.kind, p.dynamic)
}

/// The slot a binding of set `set` becomes.
pub open spec fn slot_for(b: BindingView, set: int, has_uniforms: bool) -> PlanBindingView {
    (
        b.0,
        b.1,
        set as u32,
        b.3 as u32,
        spec_kind_of(b.2),
        if has_uniforms && is_uniform(b.2) {
            1u32
        } else {
            0u32
        },
    )
}

/// The slots of every binding of the given sets, in slot order.
pub open spec fn plan_slots(sets: Seq<Seq<BindingView>>, has_uniforms: bool) -> Seq<PlanBindingView>
    decreases sets.len(),
{
    if sets.len() == 0 {
        Seq::empty()
    } else {
        plan_slots(sets.drop_last(), has_uniforms) + sets.last().map_values(
            |b: BindingView| slot_for(b, sets.len() - 1, has_uniforms),
        )
    }
}

impl BindGroupPlan {
    /// The plan's bindings in slot order, which is the order a draw's binding table is indexed by,
    /// or nothing when there are more of them than the `capacity` the JVM's table has: a draw with
    /// bindings in the wrong slots renders nonsense instead of failing.
    pub fn plan_bindings(&self, capacity: usize) -> (table: Option<Vec<PlanBinding>>)
        ensures
            ({
                let all = plan_slots(sets_view(self.sets@), self.has_uniforms);
                &&& all.len() > capacity ==> table is None
                &&& all.len() <= capacity ==> (table matches Some(t) && t@.map_values(
                    |p: PlanBinding| plan_binding_view(p),
                ) == all)
            }),
    {
        let ghost v = sets_view(self.sets@);
        let mut table: Vec<PlanBinding> = Vec::new();
        let mut s: usize = 0;
        assert(v.take(0) =~= Seq::<Seq<BindingView>>::empty());
        while s < self.sets.len()
            invariant
                s <= self.sets.len(),
                v == sets_view(self.sets@),
                table@.len() <= capacity,
                table@.map_values(|p: PlanBinding| plan_binding_view(p)) == plan_slots(
                    v.take(s as int),
                    self.has_uniforms,
                ),
            decreases self.sets.len() - s,
        {
            let set = &self.sets[s];
            let ghost bs = v[s as int];
            let ghost before = table@.map_values(|p: PlanBinding| plan_binding_view(p));
            assert(bs == set_views(set@));
            #[verifier::truncate]
            let set_number = (s as u32);
            let mut i: usize = 0;
            while i < set.len()
                invariant
                    s < self.sets.len(),
                    set == &self.sets@[s as int],
                    i <= set@.len(),
                    v == sets_view(self.sets@),
                    bs == v[s as int],
                    bs == set_views(set@),
                    set_number == s as u32,
                    table@.len() <= capacity,
                    table@.map_values(|p: PlanBinding| plan_binding_view(p)) == before
                        + bs.take(i as int).map_values(
                        |b: BindingView| slot_for(b, s as int, self.has_uniforms),
                    ),
                    before == plan_slots(v.take(s as int), self.has_uniforms),
                decreases set@.len() - i,
            {
                let binding = &set[i];
                assert(bs[i as int] == view_of(*binding));
                if table.len() >= capacity {
                    proof {
                        lemma_plan_slots_grow(v, s as int, i as int, self.has_uniforms);
                        let mapped = table@.map_values(|p: PlanBinding| plan_binding_view(p));
                        assert(mapped.len() == table@.len());
                        assert(bs.take(i as int).map_values(
                            |b: BindingView| slot_for(b, s as int, self.has_uniforms),
                        ).len() == i);
                        assert(table@.len() == before.len() + i);
                    }
                    return None;
                }
                let ghost prev = table@.map_values(|p: PlanBinding| plan_binding_view(p));
                let entry = PlanBinding {
                    name: binding.name.clone(),
                    declared_name: binding.declared_name.clone(),
                    set: set_number,
                    binding: binding.binding,
                    kind: PlanBinding::kind_of(&binding.resource),
                    dynamic: if may_travel(self.has_uniforms, &binding.resource) {
                        1
                    } else {
                        0
                    },
                };
                table.push(entry);
                assert(table@.map_values(|p: PlanBinding| plan_binding_view(p)) =~= prev.push(
                    slot_for(bs[i as int], s as int, self.has_uniforms),
                ));
                assert(bs.take(i as int + 1).map_values(
                    |b: BindingView| slot_for(b, s as int, self.has_uniforms),
                ) =~= bs.take(i as int).map_values(
                    |b: BindingView| slot_for(b, s as int, self.has_uniforms),
                ).push(slot_for(bs[i as int], s as int, self.has_uniforms)));
                i = i + 1;
            }
            proof {
                let t = v.take(s as int + 1);
                assert(t.drop_last() =~= v.take(s as int));
                assert(bs.take(set@.len() as int) =~= bs);
            }
            s = s + 1;
        }
        assert(v.take(self.sets.len() as int) =~= v);
        Some(table)
    }
}

/// The slots of the first `s` sets and the first `i` bindings of set `s`, plus one, are no more than
/// the slots of the whole plan.
proof fn lemma_plan_slots_grow(v: Seq<Seq<BindingView>>, s: int, i: int, has_uniforms: bool)
    requires
        0 <= s < v.len(),
        0 <= i < v[s].len(),
    ensures
        plan_slots(v.take(s), has_uniforms).len() + i + 1 <= plan_slots(v, has_uniforms).len(),
    decreases v.len() - s,
{
    lemma_plan_slots_len_monotone(v, s + 1, has_uniforms);
    let t = v.take(s + 1);
    assert(t.drop_last() =~= v.take(s));
}

/// More sets mean no fewer slots.
proof fn lemma_plan_slots_len_monotone(v: Seq<Seq<BindingView>>, s: int, has_uniforms: bool)
    requires
        0 <= s <= v.len(),
    ensures
        plan_slots(v.take(s), has_uniforms).len() <= plan_slots(v, has_uniforms).len(),
    decreases v.len() - s,
{
    if s < v.len() {
        lemma_plan_slots_len_monotone(v, s + 1, has_uniforms);
        let t = v.take(s + 1);
        assert(t.drop_last() =~= v.take(s));
    } else {
        assert(v.take(s) =~= v);
    }
}

// ---------------------------------------------------------------------------------------------
// What the JVM passes
// ---------------------------------------------------------------------------------------------

/// An array the JVM hands over: its items, in order.
pub struct RawArray<T> {
    pub items: Vec<T>,
}

impl<T> RawArray<T> {
    /// An array holding `items`.
    pub fn from_vec(items: Vec<T>) -> (a: Self)
        ensures
            a.items@ == items@,
    {
        RawArray { items }
    }

    /// How many items the array holds.
    pub fn len(&self) -> (n: usize)
        ensures
            n == self.items@.len(),
    {
        self.items.len()
    }

    /// Whether the array holds nothing.
    pub fn is_empty(&self) -> (r: bool)
        ensures
            r == (self.items@.len() == 0),
    {
        self.items.len() == 0
    }

    /// Item `index`.
    pub fn get(&self, index: usize) -> (item: &T)
        requires
            index < self.items@.len(),
        ensures
            *item == self.items@[index as int],
    {
        &self.items[index]
    }
}

/// One binding of a draw, as the JVM has it: what is bound, the address of the resource (zero for
/// nothing), and for a buffer the slice.
#[derive(Clone, Copy, Debug, PartialEq, Eq, Structural)]
pub struct DrawBinding {
    /// One of the `DRAW_BINDING_*` constants.
    pub kind: u32,
    pub resource: usize,
    /// Buffer slice start, in bytes. Zero for the other kinds.
    pub offset: u64,
    /// Buffer slice length, in bytes. Zero for the other kinds.
    pub length: u64,
}

impl DrawBinding {
    /// A slot the draw did not fill in.
    pub fn none() -> (b: DrawBinding)
        ensures
            b == (DrawBinding { kind: DRAW_BINDING_NONE, resource: 0, offset: 0, length: 0 }),
    {
        DrawBinding { kind: DRAW_BINDING_NONE, resource: 0, offset: 0, length: 0 }
    }

    /// The slot as the draw path reads it, once the size of the buffer it names is known.
    pub fn resolved(&self, buffer_size: u64) -> (e: SlotEntry)
        ensures
            e == (SlotEntry {
                kind: self.kind,
                address: self.resource,
                offset: self.offset,
                length: self.length,
                buffer_size,
            }),
    {
        SlotEntry {
            kind: self.kind,
            address: self.resource,
            offset: self.offset,
            length: self.length,
            buffer_size,
        }
    }
}

/// One vertex buffer of a draw: its address and the slice of it that is read.
#[derive(Clone, Copy, Debug, PartialEq, Eq, Structural)]
pub struct DrawVertexBuffer {
    pub buffer: usize,
    pub offset: u64,
    pub size: u64,
}

/// The blend factors of a colour target.
#[derive(Clone, Copy, Debug, PartialEq, Eq, Structural)]
pub struct BlazeBlendState {
    pub src_color: BlendFactor,
    pub dst_color: BlendFactor,
    pub src_alpha: BlendFactor,
    pub dst_alpha: BlendFactor,
}

/// A colour target of a pipeline: its format, its blending if any, and which channels it writes.
#[derive(Clone, Copy, Debug, PartialEq, Eq, Structural)]
pub struct BlazeColorTargetState {
    pub blend: Option<BlazeBlendState>,
    pub format: GpuFormat,
    pub write_mask: u32,
}

/// The fragment state of a pipeline, which carries nothing of its own.
#[derive(Clone, Copy, Debug, PartialEq, Eq, Structural)]
pub struct FragState {}

/// Whether `needle` occurs in `hay` starting at `k`.
pub open spec fn occurs_at(hay: Seq<char>, needle: Seq<char>, k: int) -> bool {
    0 <= k && k + needle.len() <= hay.len() && hay.subrange(k, k + needle.len()) == needle
}

/// Whether `needle` occurs anywhere in `hay`.
pub open spec fn contains_text(hay: Seq<char>, needle: Seq<char>) -> bool {
    exists|k: int| occurs_at(hay, needle, k)
}

/// Whether `needle` occurs in `hay` at `k`, character by character.
fn matches_at(hay: &str, needle: &str, k: usize) -> (r: bool)
    requires
        k + needle@.len() <= hay@.len() <= usize::MAX,
    ensures
        r == occurs_at(hay@, needle@, k as int),
{
    let m = needle.unicode_len();
    let mut i: usize = 0;
    while i < m
        invariant
            m == needle@.len(),
            k + m <= hay@.len() <= usize::MAX,
            i <= m,
            forall|j: int| 0 <= j < i ==> hay@[k + j] == needle@[j],
        decreases m - i,
    {
        if hay.get_char(k + i) != needle.get_char(i) {
            assert(hay@.subrange(k as int, k + m)[i as int] != needle@[i as int]);
            return false;
        }
        i = i + 1;
    }
    assert(hay@.subrange(k as int, k + m) =~= needle@);
    true
}

/// Whether `needle` occurs anywhere in `hay`.
pub fn contains(hay: &str, needle: &str) -> (r: bool)
    ensures
        r == contains_text(hay@, needle@),
{
    let n = hay.unicode_len();
    let m = needle.unicode_len();
    if m > n {
        return false;
    }
    if m == 0 {
        assert(hay@.subrange(0, 0) =~= needle@);
        assert(occurs_at(hay@, needle@, 0));
        return true;
    }
    let mut k: usize = 0;
    while k <= n - m
        invariant
            n == hay@.len(),
            m == needle@.len(),
            0 < m <= n,
            k <= n - m + 1,
            forall|j: int| 0 <= j < k ==> !occurs_at(hay@, needle@, j),
        decreases n - m + 1 - k,
    {
        if matches_at(hay, needle, k) {
            return true;
        }
        k = k + 1;
    }
    false
}

/// The filter a trace-plan file's text asks for: the text without surrounding whitespace, or no
/// filter where nothing is left.
pub fn trace_filter(text: &str) -> (filter: Option<String>)
    ensures
        match filter {
            None => trim(text@).len() == 0,
            Some(f) => trim(text@).len() > 0 && f@ == trim(text@),
        },
{
    let chars = trimmed(text);
    if chars.len() == 0 {
        None
    } else {
        let mut f = String::new();
        push_chars(&chars, &mut f);
        assert(f@ =~= chars@);
        Some(f)
    }
}

/// Whether a pipeline is one the trace filter asks for: every pipeline where there is no filter,
/// else those whose name contains the filter.
pub fn trace_filter_matches(filter: Option<&str>, pipeline_name: &str) -> (r: bool)
    ensures
        r == match filter {
            None => true,
            Some(f) => contains_text(pipeline_name@, f@),
        },
{
    match filter {
        None => true,
        Some(f) => contains(pipeline_name, f),
    }
}

/// How the vertices of a draw are drawn.
#[derive(Clone, Copy, Debug, PartialEq, Eq, Structural)]
pub enum GeometryDraw {
    /// A triangle list over generated fan indices `0..index_count`, offset by `base_vertex`.
    Fan { index_count: u32, base_vertex: i32 },
    /// A triangle list over generated quad indices `0..index_count`, offset by `base_vertex`.
    Quads { index_count: u32, base_vertex: i32 },
    /// The draw's own index buffer, indices `start..end`, offset by `base_vertex`.
    Indexed { start: u32, end: u32, base_vertex: i32 },
    /// No index buffer: vertices `start..end`.
    Plain { start: u32, end: u32 },
}

/// How a draw's geometry is drawn, and over how many instances.
#[derive(Clone, Copy, Debug, PartialEq, Eq, Structural)]
pub struct GeometryPlan {
    pub draw: GeometryDraw,
    /// The instances drawn are `0..instances`.
    pub instances: u32,
    /// The vertices the draw counts for the frame's statistics: its vertex count times its
    /// instance count as the draw gave it.
    pub counted_vertices: u64,
}

/// What a draw of `count` vertices from `first` is drawn as.
///
/// wgpu has no fan or quad topology: a fan of three or more vertices is drawn as triangles over
/// generated indices, starting at the draw's first vertex (plus the base vertex where the draw is
/// indexed, since Minecraft's indices for a fan are the plain sequential range); a run of quads
/// drawn without an index buffer takes Minecraft's own quad pattern over whole quads. Everything
/// else is drawn as it came, with or without the draw's index buffer.
pub open spec fn spec_geometry_draw(
    topology: PrimitiveTopology,
    indexed: bool,
    count: u32,
    first: u32,
    base_vertex: i32,
) -> GeometryDraw {
    if topology == PrimitiveTopology::TriangleFan && count >= 3 {
        GeometryDraw::Fan {
            index_count: (3 * (count - 2)) as u32,
            base_vertex: if indexed {
                (base_vertex + (first as i32)) as i32
            } else {
                first as i32
            },
        }
    } else if topology == PrimitiveTopology::Quads && !indexed && count / 4 > 0 {
        GeometryDraw::Quads { index_count: ((count / 4) * 6) as u32, base_vertex: first as i32 }
    } else if indexed {
        GeometryDraw::Indexed { start: first, end: (first + count) as u32, base_vertex }
    } else {
        GeometryDraw::Plain { start: first, end: (first + count) as u32 }
    }
}

/// How a draw's geometry is drawn: see [`spec_geometry_draw`]; at least one instance is drawn.
pub fn geometry_plan(
    topology: PrimitiveTopology,
    indexed: bool,
    count: u32,
    first: u32,
    base_vertex: i32,
    instance_count: u32,
) -> (plan: GeometryPlan)
    requires
        topology == PrimitiveTopology::TriangleFan && count >= 3 ==> 3 * (count - 2) <= u32::MAX
            && (indexed ==> i32::MIN <= base_vertex + (first as i32) <= i32::MAX),
        topology == PrimitiveTopology::Quads && !indexed ==> (count / 4) * 6 <= u32::MAX,
        !(topology == PrimitiveTopology::TriangleFan && count >= 3) && !(topology
            == PrimitiveTopology::Quads && !indexed && count / 4 > 0) ==> first + count <= u32::MAX,
    ensures
        plan.draw == spec_geometry_draw(topology, indexed, count, first, base_vertex),
        plan.instances == if instance_count == 0 {
            1
        } else {
            instance_count
        },
        plan.counted_vertices == count * instance_count,
{
    let instances = if instance_count == 0 {
        1
    } else {
        instance_count
    };
    #[verifier::truncate]
    let first_signed = (first as i32);
    let draw = if topology.is_fan() && count >= 3 {
        GeometryDraw::Fan {
            index_count: 3 * (count - 2),
            base_vertex: if indexed {
                base_vertex + first_signed
            } else {
                first_signed
            },
        }
    } else if topology == PrimitiveTopology::Quads && !indexed && count / 4 > 0 {
        GeometryDraw::Quads { index_count: (count / 4) * 6, base_vertex: first_signed }
    } else if indexed {
        GeometryDraw::Indexed { start: first, end: first + count, base_vertex }
    } else {
        GeometryDraw::Plain { start: first, end: first + count }
    };
    assert(count * instance_count <= 0xffff_ffff * 0xffff_ffff) by (nonlinear_arith)
        requires
            count <= 0xffff_ffff,
            instance_count <= 0xffff_ffff,
    ;
    GeometryPlan { draw, instances, counted_vertices: count as u64 * instance_count as u64 }
}

/// The width of the indices in a draw's index buffer.
#[derive(Clone, Copy, Debug, PartialEq, Eq, Structural)]
pub enum IndexFormat {
    Uint16,
    Uint32,
}

/// The index format the JVM's number names: `2` is 32-bit indices, anything else 16-bit.
pub fn index_format(raw: u32) -> (format: IndexFormat)
    ensures
        format == if raw == 2 {
            IndexFormat::Uint32
        } else {
            IndexFormat::Uint16
        },
{
    if raw == 2 {
        IndexFormat::Uint32
    } else {
        IndexFormat::Uint16
    }
}

/// Whether slot `slot` is set in a vertex buffer mask.
pub open spec fn slot_set(mask: u32, slot: int) -> bool {
    mask & (1u32 << (slot as u32)) != 0
}

/// The slots below `bound` that `mask` sets, in order.
pub open spec fn set_slots(mask: u32, bound: int) -> Seq<u32>
    decreases bound,
{
    if bound <= 0 {
        Seq::empty()
    } else if slot_set(mask, bound - 1) {
        set_slots(mask, bound - 1).push((bound - 1) as u32)
    } else {
        set_slots(mask, bound - 1)
    }
}

/// The vertex buffer slots a draw sets, in slot order: those of the first
/// [`MAX_VERTEX_BUFFERS`] whose bit is set in `mask`.
pub fn vertex_slots(mask: u32) -> (slots: Vec<u32>)
    ensures
        slots@ == set_slots(mask, MAX_VERTEX_BUFFERS as int),
{
    let mut slots: Vec<u32> = Vec::new();
    let mut slot: u32 = 0;
    while slot < MAX_VERTEX_BUFFERS as u32
        invariant
            slot <= MAX_VERTEX_BUFFERS,
            slots@ == set_slots(mask, slot as int),
        decreases MAX_VERTEX_BUFFERS - slot,
    {
        if mask & (1u32 << slot) != 0 {
            slots.push(slot);
        }
        slot = slot + 1;
    }
    slots
}

/// One draw, as the JVM hands it over: the pipeline, the vertex and index buffers, the draw's
/// parameters and every binding by slot.
pub struct DrawCall {
    /// The address of the compiled pipeline.
    pub pipeline: usize,
    /// Which vertex buffer slots are bound; slot `i` is read when bit `i` is set.
    pub vertex_buffer_mask: u32,
    /// 0 = none, 1 = u16, 2 = u32. The index buffer is only read when `indexed` is set.
    pub index_format: u32,
    pub indexed: u32,
    /// How many binding slots the plan for this pipeline has.
    pub bindings_len: u32,
    /// First vertex, or first index when indexed.
    pub first: u32,
    /// Vertex count, or index count when indexed.
    pub count: u32,
    pub base_vertex: i32,
    pub instance_count: u32,
    /// The address of the index buffer.
    pub index_buffer: usize,
    pub vertex_buffers: [DrawVertexBuffer; MAX_VERTEX_BUFFERS],
    pub bindings: [DrawBinding; MAX_DRAW_BINDINGS],
    /// The JVM's number for this set of bindings, or zero when it did not send one.
    pub combo: u32,
    /// Whether `bindings` carries what `combo` left out.
    pub bindings_present: u32,
}

/// A vertex buffer slot the draw did not fill in.
pub open spec fn no_vertex_buffer() -> DrawVertexBuffer {
    DrawVertexBuffer { buffer: 0, offset: 0, size: 0 }
}

impl Default for DrawCall {
    /// A draw of nothing: no pipeline, buffers or bindings, one instance.
    fn default() -> (call: Self)
        ensures
            call.pipeline == 0,
            call.vertex_buffer_mask == 0,
            call.index_format == 0,
            call.indexed == 0,
            call.bindings_len == 0,
            call.first == 0,
            call.count == 0,
            call.base_vertex == 0,
            call.instance_count == 1,
            call.index_buffer == 0,
            forall|i: int| 0 <= i < 8 ==> #[trigger] call.vertex_buffers@[i] == no_vertex_buffer(),
            forall|i: int|
                0 <= i < 32 ==> #[trigger] call.bindings@[i] == (DrawBinding {
                    kind: DRAW_BINDING_NONE,
                    resource: 0,
                    offset: 0,
                    length: 0,
                }),
            call.combo == 0,
            call.bindings_present == 0,
    {
        let v = DrawVertexBuffer { buffer: 0, offset: 0, size: 0 };
        let b = DrawBinding::none();
        DrawCall {
            pipeline: 0,
            vertex_buffer_mask: 0,
            index_format: 0,
            indexed: 0,
            bindings_len: 0,
            first: 0,
            count: 0,
            base_vertex: 0,
            instance_count: 1,
            index_buffer: 0,
            vertex_buffers: [v, v, v, v, v, v, v, v],
            bindings: [
                b, b, b, b, b, b, b, b, b, b, b, b, b, b, b, b,
                b, b, b, b, b, b, b, b, b, b, b, b, b, b, b, b,
            ],
            combo: 0,
            bindings_present: 0,
        }
    }
}

impl DrawCall {
    /// How this draw's geometry is drawn with a pipeline of `topology`.
    pub fn geometry(&self, topology: PrimitiveTopology) -> (plan: GeometryPlan)
        requires
            topology == PrimitiveTopology::TriangleFan && self.count >= 3 ==> 3 * (self.count - 2)
                <= u32::MAX && (self.indexed != 0 ==> i32::MIN <= self.base_vertex + (
            self.first as i32) <= i32::MAX),
            topology == PrimitiveTopology::Quads && self.indexed == 0 ==> (self.count / 4) * 6
                <= u32::MAX,
            !(topology == PrimitiveTopology::TriangleFan && self.count >= 3) && !(topology
                == PrimitiveTopology::Quads && self.indexed == 0 && self.count / 4 > 0)
                ==> self.first + self.count <= u32::MAX,
        ensures
            plan.draw == spec_geometry_draw(
                topology,
                self.indexed != 0,
                self.count,
                self.first,
                self.base_vertex,
            ),
            plan.instances == if self.instance_count == 0 {
                1
            } else {
                self.instance_count
            },
            plan.counted_vertices == self.count * self.instance_count,
    {
        geometry_plan(
            topology,
            self.indexed != 0,
            self.count,
            self.first,
            self.base_vertex,
            self.instance_count,
        )
    }
}

} // verus!
