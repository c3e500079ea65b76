//! The vertex layout of a pipeline: where each element of the JVM's vertex formats is read from,
//! and at which shader location.

use vstd::prelude::*;
use crate::blaze::{format_shape, ChannelKind, FormatShape, GpuFormat};

verus! {

/// A vertex attribute's format, as wgpu names them.
#[derive(Clone, Copy, Debug, PartialEq, Eq, Structural)]
pub enum VertexAttributeFormat {
    Unorm8,
    Unorm8x2,
    Unorm8x4,
    Snorm8,
    Snorm8x2,
    Snorm8x4,
    Uint8,
    Uint8x2,
    Uint8x4,
    Sint8,
    Sint8x2,
    Sint8x4,
    Unorm16,
    Unorm16x2,
    Unorm16x4,
    Snorm16,
    Snorm16x2,
    Snorm16x4,
    Uint16,
    Uint16x2,
    Uint16x4,
    Sint16,
    Sint16x2,
    Sint16x4,
    Uint32,
    Uint32x2,
    Uint32x3,
    Uint32x4,
    Sint32,
    Sint32x2,
    Sint32x3,
    Sint32x4,
    Float32,
    Float32x2,
    Float32x3,
    Float32x4,
    Float16,
    Float16x2,
    Float16x4,
}

/// The attribute format a vertex element of format `f` is read as, if there is one.
///
/// Three-component 8- and 16-bit formats have no attribute format of their own and are read as
/// four components: Minecraft pads its vertex formats to a multiple of four bytes, so the extra
/// component is padding, and a `vec3` input is served by a four-component attribute.
pub open spec fn spec_vertex_format(f: GpuFormat) -> Option<VertexAttributeFormat> {
    match f {
        GpuFormat::R8_UNORM => Some(VertexAttributeFormat::Unorm8),
        GpuFormat::RG8_UNORM => Some(VertexAttributeFormat::Unorm8x2),
        GpuFormat::RGB8_UNORM => Some(VertexAttributeFormat::Unorm8x4),
        GpuFormat::RGBA8_UNORM => Some(VertexAttributeFormat::Unorm8x4),
        GpuFormat::R8_SNORM => Some(VertexAttributeFormat::Snorm8),
        GpuFormat::RG8_SNORM => Some(VertexAttributeFormat::Snorm8x2),
        GpuFormat::RGB8_SNORM => Some(VertexAttributeFormat::Snorm8x4),
        GpuFormat::RGBA8_SNORM => Some(VertexAttributeFormat::Snorm8x4),
        GpuFormat::R8_UINT => Some(VertexAttributeFormat::Uint8),
        GpuFormat::RG8_UINT => Some(VertexAttributeFormat::Uint8x2),
        GpuFormat::RGB8_UINT => Some(VertexAttributeFormat::Uint8x4),
        GpuFormat::RGBA8_UINT => Some(VertexAttributeFormat::Uint8x4),
        GpuFormat::R8_SINT => Some(VertexAttributeFormat::Sint8),
        GpuFormat::RG8_SINT => Some(VertexAttributeFormat::Sint8x2),
        GpuFormat::RGB8_SINT => Some(VertexAttributeFormat::Sint8x4),
        GpuFormat::RGBA8_SINT => Some(VertexAttributeFormat::Sint8x4),
        GpuFormat::R16_UNORM => Some(VertexAttributeFormat::Unorm16),
        GpuFormat::RG16_UNORM => Some(VertexAttributeFormat::Unorm16x2),
        GpuFormat::RGB16_UNORM => Some(VertexAttributeFormat::Unorm16x4),
        GpuFormat::RGBA16_UNORM => Some(VertexAttributeFormat::Unorm16x4),
        GpuFormat::R16_SNORM => Some(VertexAttributeFormat::Snorm16),
        GpuFormat::RG16_SNORM => Some(VertexAttributeFormat::Snorm16x2),
        GpuFormat::RGB16_SNORM => Some(VertexAttributeFormat::Snorm16x4),
        GpuFormat::RGBA16_SNORM => Some(VertexAttributeFormat::Snorm16x4),
        GpuFormat::R16_UINT => Some(VertexAttributeFormat::Uint16),
        GpuFormat::RG16_UINT => Some(VertexAttributeFormat::Uint16x2),
        GpuFormat::RGB16_UINT => Some(VertexAttributeFormat::Uint16x4),
        GpuFormat::RGBA16_UINT => Some(VertexAttributeFormat::Uint16x4),
        GpuFormat::R16_SINT => Some(VertexAttributeFormat::Sint16),
        GpuFormat::RG16_SINT => Some(VertexAttributeFormat::Sint16x2),
        GpuFormat::RGB16_SINT => Some(VertexAttributeFormat::Sint16x4),
        GpuFormat::RGBA16_SINT => Some(VertexAttributeFormat::Sint16x4),
        GpuFormat::R32_UINT => Some(VertexAttributeFormat::Uint32),
        GpuFormat::RG32_UINT => Some(VertexAttributeFormat::Uint32x2),
        GpuFormat::RGB32_UINT => Some(VertexAttributeFormat::Uint32x3),
        GpuFormat::RGBA32_UINT => Some(VertexAttributeFormat::Uint32x4),
        GpuFormat::R32_SINT => Some(VertexAttributeFormat::Sint32),
        GpuFormat::RG32_SINT => Some(VertexAttributeFormat::Sint32x2),
        GpuFormat::RGB32_SINT => Some(VertexAttributeFormat::Sint32x3),
        GpuFormat::RGBA32_SINT => Some(VertexAttributeFormat::Sint32x4),
        GpuFormat::R32_FLOAT => Some(VertexAttributeFormat::Float32),
        GpuFormat::RG32_FLOAT => Some(VertexAttributeFormat::Float32x2),
        GpuFormat::RGB32_FLOAT => Some(VertexAttributeFormat::Float32x3),
        GpuFormat::RGBA32_FLOAT => Some(VertexAttributeFormat::Float32x4),
        GpuFormat::R16_FLOAT => Some(VertexAttributeFormat::Float16),
        GpuFormat::RG16_FLOAT => Some(VertexAttributeFormat::Float16x2),
        GpuFormat::RGBA16_FLOAT => Some(VertexAttributeFormat::Float16x4),
        GpuFormat::RGB16_FLOAT
        | GpuFormat::RGB10A2_UNORM
        | GpuFormat::RGB10A2_UINT
        | GpuFormat::RG11B10_FLOAT
        | GpuFormat::D32_FLOAT
        | GpuFormat::D32_FLOAT_S8_UINT
        | GpuFormat::D24_UNORM_S8_UINT
        | GpuFormat::D16_UNORM
        | GpuFormat::S8_UINT
        | GpuFormat::NoFormat => None,
    }
}

/// The bytes one attribute of format `f` takes.
pub open spec fn spec_attribute_size(f: VertexAttributeFormat) -> u64 {
    match f {
        VertexAttributeFormat::Unorm8 => 1,
        VertexAttributeFormat::Unorm8x2 => 2,
        VertexAttributeFormat::Unorm8x4 => 4,
        VertexAttributeFormat::Snorm8 => 1,
        VertexAttributeFormat::Snorm8x2 => 2,
        VertexAttributeFormat::Snorm8x4 => 4,
        VertexAttributeFormat::Uint8 => 1,
        VertexAttributeFormat::Uint8x2 => 2,
        VertexAttributeFormat::Uint8x4 => 4,
        VertexAttributeFormat::Sint8 => 1,
        VertexAttributeFormat::Sint8x2 => 2,
        VertexAttributeFormat::Sint8x4 => 4,
        VertexAttributeFormat::Unorm16 => 2,
        VertexAttributeFormat::Unorm16x2 => 4,
        VertexAttributeFormat::Unorm16x4 => 8,
        VertexAttributeFormat::Snorm16 => 2,
        VertexAttributeFormat::Snorm16x2 => 4,
        VertexAttributeFormat::Snorm16x4 => 8,
        VertexAttributeFormat::Uint16 => 2,
        VertexAttributeFormat::Uint16x2 => 4,
        VertexAttributeFormat::Uint16x4 => 8,
        VertexAttributeFormat::Sint16 => 2,
        VertexAttributeFormat::Sint16x2 => 4,
        VertexAttributeFormat::Sint16x4 => 8,
        VertexAttributeFormat::Uint32 => 4,
        VertexAttributeFormat::Uint32x2 => 8,
        VertexAttributeFormat::Uint32x3 => 12,
        VertexAttributeFormat::Uint32x4 => 16,
        VertexAttributeFormat::Sint32 => 4,
        VertexAttributeFormat::Sint32x2 => 8,
        VertexAttributeFormat::Sint32x3 => 12,
        VertexAttributeFormat::Sint32x4 => 16,
        VertexAttributeFormat::Float32 => 4,
        VertexAttributeFormat::Float32x2 => 8,
        VertexAttributeFormat::Float32x3 => 12,
        VertexAttributeFormat::Float32x4 => 16,
        VertexAttributeFormat::Float16 => 2,
        VertexAttributeFormat::Float16x2 => 4,
        VertexAttributeFormat::Float16x4 => 8,
    }
}

/// What an attribute format reads, as its name says: the kind of its components, their width in
/// bits and how many there are.
pub open spec fn attribute_shape(f: VertexAttributeFormat) -> FormatShape {
    match f {
        VertexAttributeFormat::Unorm8 => FormatShape::Channels(ChannelKind::Unorm, 8, 1),
        VertexAttributeFormat::Unorm8x2 => FormatShape::Channels(ChannelKind::Unorm, 8, 2),
        VertexAttributeFormat::Unorm8x4 => FormatShape::Channels(ChannelKind::Unorm, 8, 4),
        VertexAttributeFormat::Snorm8 => FormatShape::Channels(ChannelKind::Snorm, 8, 1),
        VertexAttributeFormat::Snorm8x2 => FormatShape::Channels(ChannelKind::Snorm, 8, 2),
        VertexAttributeFormat::Snorm8x4 => FormatShape::Channels(ChannelKind::Snorm, 8, 4),
        VertexAttributeFormat::Uint8 => FormatShape::Channels(ChannelKind::Uint, 8, 1),
        VertexAttributeFormat::Uint8x2 => FormatShape::Channels(ChannelKind::Uint, 8, 2),
        VertexAttributeFormat::Uint8x4 => FormatShape::Channels(ChannelKind::Uint, 8, 4),
        VertexAttributeFormat::Sint8 => FormatShape::Channels(ChannelKind::Sint, 8, 1),
        VertexAttributeFormat::Sint8x2 => FormatShape::Channels(ChannelKind::Sint, 8, 2),
        VertexAttributeFormat::Sint8x4 => FormatShape::Channels(ChannelKind::Sint, 8, 4),
        VertexAttributeFormat::Unorm16 => FormatShape::Channels(ChannelKind::Unorm, 16, 1),
        VertexAttributeFormat::Unorm16x2 => FormatShape::Channels(ChannelKind::Unorm, 16, 2),
        VertexAttributeFormat::Unorm16x4 => FormatShape::Channels(ChannelKind::Unorm, 16, 4),
        VertexAttributeFormat::Snorm16 => FormatShape::Channels(ChannelKind::Snorm, 16, 1),
        VertexAttributeFormat::Snorm16x2 => FormatShape::Channels(ChannelKind::Snorm, 16, 2),
        VertexAttributeFormat::Snorm16x4 => FormatShape::Channels(ChannelKind::Snorm, 16, 4),
        VertexAttributeFormat::Uint16 => FormatShape::Channels(ChannelKind::Uint, 16, 1),
        VertexAttributeFormat::Uint16x2 => FormatShape::Channels(ChannelKind::Uint, 16, 2),
        VertexAttributeFormat::Uint16x4 => FormatShape::Channels(ChannelKind::Uint, 16, 4),
        VertexAttributeFormat::Sint16 => FormatShape::Channels(ChannelKind::Sint, 16, 1),
        VertexAttributeFormat::Sint16x2 => FormatShape::Channels(ChannelKind::Sint, 16, 2),
        VertexAttributeFormat::Sint16x4 => FormatShape::Channels(ChannelKind::Sint, 16, 4),
        VertexAttributeFormat::Uint32 => FormatShape::Channels(ChannelKind::Uint, 32, 1),
        VertexAttributeFormat::Uint32x2 => FormatShape::Channels(ChannelKind::Uint, 32, 2),
        VertexAttributeFormat::Uint32x3 => FormatShape::Channels(ChannelKind::Uint, 32, 3),
        VertexAttributeFormat::Uint32x4 => FormatShape::Channels(ChannelKind::Uint, 32, 4),
        VertexAttributeFormat::Sint32 => FormatShape::Channels(ChannelKind::Sint, 32, 1),
        VertexAttributeFormat::Sint32x2 => FormatShape::Channels(ChannelKind::Sint, 32, 2),
        VertexAttributeFormat::Sint32x3 => FormatShape::Channels(ChannelKind::Sint, 32, 3),
        VertexAttributeFormat::Sint32x4 => FormatShape::Channels(ChannelKind::Sint, 32, 4),
        VertexAttributeFormat::Float32 => FormatShape::Channels(ChannelKind::Float, 32, 1),
        VertexAttributeFormat::Float32x2 => FormatShape::Channels(ChannelKind::Float, 32, 2),
        VertexAttributeFormat::Float32x3 => FormatShape::Channels(ChannelKind::Float, 32, 3),
        VertexAttributeFormat::Float32x4 => FormatShape::Channels(ChannelKind::Float, 32, 4),
        VertexAttributeFormat::Float16 => FormatShape::Channels(ChannelKind::Float, 16, 1),
        VertexAttributeFormat::Float16x2 => FormatShape::Channels(ChannelKind::Float, 16, 2),
        VertexAttributeFormat::Float16x4 => FormatShape::Channels(ChannelKind::Float, 16, 4),
    }
}

/// A vertex element is read as components of its own kind and width, as many as it has - three
/// 8- or 16-bit ones being read as four, the fourth being padding - and the attribute takes as many
/// bytes as those components. Only formats made of plain channels are read, and of those all but
/// three-component 16-bit floats, which no attribute format reads.
pub proof fn lemma_vertex_formats_keep_their_components(f: GpuFormat)
    ensures
        spec_vertex_format(f) is None <==> (!(format_shape(f) is Channels) || format_shape(f)
            == FormatShape::Channels(ChannelKind::Float, 16, 3)),
        spec_vertex_format(f) matches Some(a) ==> format_shape(f) matches FormatShape::Channels(
            kind,
            bits,
            count,
        ) && attribute_shape(a) == FormatShape::Channels(
            kind,
            bits,
            if count == 3 && bits < 32 {
                4u32
            } else {
                count
            },
        ),
        spec_vertex_format(f) matches Some(a) ==> attribute_shape(a) matches FormatShape::Channels(
            _,
            bits,
            count,
        ) && spec_attribute_size(a) * 8 == bits * count,
{
}

impl VertexAttributeFormat {
    /// The bytes one attribute of this format takes.
    pub fn size(self) -> (n: u64)
        ensures
            n == spec_attribute_size(self),
    {
        match self {
            VertexAttributeFormat::Unorm8 => 1,
            VertexAttributeFormat::Unorm8x2 => 2,
            VertexAttributeFormat::Unorm8x4 => 4,
            VertexAttributeFormat::Snorm8 => 1,
            VertexAttributeFormat::Snorm8x2 => 2,
            VertexAttributeFormat::Snorm8x4 => 4,
            VertexAttributeFormat::Uint8 => 1,
            VertexAttributeFormat::Uint8x2 => 2,
            VertexAttributeFormat::Uint8x4 => 4,
            VertexAttributeFormat::Sint8 => 1,
            VertexAttributeFormat::Sint8x2 => 2,
            VertexAttributeFormat::Sint8x4 => 4,
            VertexAttributeFormat::Unorm16 => 2,
            VertexAttributeFormat::Unorm16x2 => 4,
            VertexAttributeFormat::Unorm16x4 => 8,
            VertexAttributeFormat::Snorm16 => 2,
            VertexAttributeFormat::Snorm16x2 => 4,
            VertexAttributeFormat::Snorm16x4 => 8,
            VertexAttributeFormat::Uint16 => 2,
            VertexAttributeFormat::Uint16x2 => 4,
            VertexAttributeFormat::Uint16x4 => 8,
            VertexAttributeFormat::Sint16 => 2,
            VertexAttributeFormat::Sint16x2 => 4,
            VertexAttributeFormat::Sint16x4 => 8,
            VertexAttributeFormat::Uint32 => 4,
            VertexAttributeFormat::Uint32x2 => 8,
            VertexAttributeFormat::Uint32x3 => 12,
            VertexAttributeFormat::Uint32x4 => 16,
            VertexAttributeFormat::Sint32 => 4,
            VertexAttributeFormat::Sint32x2 => 8,
            VertexAttributeFormat::Sint32x3 => 12,
            VertexAttributeFormat::Sint32x4 => 16,
            VertexAttributeFormat::Float32 => 4,
            VertexAttributeFormat::Float32x2 => 8,
            VertexAttributeFormat::Float32x3 => 12,
            VertexAttributeFormat::Float32x4 => 16,
            VertexAttributeFormat::Float16 => 2,
            VertexAttributeFormat::Float16x2 => 4,
            VertexAttributeFormat::Float16x4 => 8,
        }
    }
}

impl GpuFormat {
    /// The attribute format a vertex element of this format is read as; `None` for the formats a
    /// vertex element cannot have.
    pub fn to_wgpu_vertex_format(&self) -> (f: Option<VertexAttributeFormat>)
        ensures
            f == spec_vertex_format(*self),
    {
        match self {
            GpuFormat::R8_UNORM => Some(VertexAttributeFormat::Unorm8),
            GpuFormat::RG8_UNORM => Some(VertexAttributeFormat::Unorm8x2),
            GpuFormat::RGB8_UNORM => Some(VertexAttributeFormat::Unorm8x4),
            GpuFormat::RGBA8_UNORM => Some(VertexAttributeFormat::Unorm8x4),
            GpuFormat::R8_SNORM => Some(VertexAttributeFormat::Snorm8),
            GpuFormat::RG8_SNORM => Some(VertexAttributeFormat::Snorm8x2),
            GpuFormat::RGB8_SNORM => Some(VertexAttributeFormat::Snorm8x4),
            GpuFormat::RGBA8_SNORM => Some(VertexAttributeFormat::Snorm8x4),
            GpuFormat::R8_UINT => Some(VertexAttributeFormat::Uint8),
            GpuFormat::RG8_UINT => Some(VertexAttributeFormat::Uint8x2),
            GpuFormat::RGB8_UINT => Some(VertexAttributeFormat::Uint8x4),
            GpuFormat::RGBA8_UINT => Some(VertexAttributeFormat::Uint8x4),
            GpuFormat::R8_SINT => Some(VertexAttributeFormat::Sint8),
            GpuFormat::RG8_SINT => Some(VertexAttributeFormat::Sint8x2),
            GpuFormat::RGB8_SINT => Some(VertexAttributeFormat::Sint8x4),
            GpuFormat::RGBA8_SINT => Some(VertexAttributeFormat::Sint8x4),
            GpuFormat::R16_UNORM => Some(VertexAttributeFormat::Unorm16),
            GpuFormat::RG16_UNORM => Some(VertexAttributeFormat::Unorm16x2),
            GpuFormat::RGB16_UNORM => Some(VertexAttributeFormat::Unorm16x4),
            GpuFormat::RGBA16_UNORM => Some(VertexAttributeFormat::Unorm16x4),
            GpuFormat::R16_SNORM => Some(VertexAttributeFormat::Snorm16),
            GpuFormat::RG16_SNORM => Some(VertexAttributeFormat::Snorm16x2),
            GpuFormat::RGB16_SNORM => Some(VertexAttributeFormat::Snorm16x4),
            GpuFormat::RGBA16_SNORM => Some(VertexAttributeFormat::Snorm16x4),
            GpuFormat::R16_UINT => Some(VertexAttributeFormat::Uint16),
            GpuFormat::RG16_UINT => Some(VertexAttributeFormat::Uint16x2),
            GpuFormat::RGB16_UINT => Some(VertexAttributeFormat::Uint16x4),
            GpuFormat::RGBA16_UINT => Some(VertexAttributeFormat::Uint16x4),
            GpuFormat::R16_SINT => Some(VertexAttributeFormat::Sint16),
            GpuFormat::RG16_SINT => Some(VertexAttributeFormat::Sint16x2),
            GpuFormat::RGB16_SINT => Some(VertexAttributeFormat::Sint16x4),
            GpuFormat::RGBA16_SINT => Some(VertexAttributeFormat::Sint16x4),
            GpuFormat::R32_UINT => Some(VertexAttributeFormat::Uint32),
            GpuFormat::RG32_UINT => Some(VertexAttributeFormat::Uint32x2),
            GpuFormat::RGB32_UINT => Some(VertexAttributeFormat::Uint32x3),
            GpuFormat::RGBA32_UINT => Some(VertexAttributeFormat::Uint32x4),
            GpuFormat::R32_SINT => Some(VertexAttributeFormat::Sint32),
            GpuFormat::RG32_SINT => Some(VertexAttributeFormat::Sint32x2),
            GpuFormat::RGB32_SINT => Some(VertexAttributeFormat::Sint32x3),
            GpuFormat::RGBA32_SINT => Some(VertexAttributeFormat::Sint32x4),
            GpuFormat::R32_FLOAT => Some(VertexAttributeFormat::Float32),
            GpuFormat::RG32_FLOAT => Some(VertexAttributeFormat::Float32x2),
            GpuFormat::RGB32_FLOAT => Some(VertexAttributeFormat::Float32x3),
            GpuFormat::RGBA32_FLOAT => Some(VertexAttributeFormat::Float32x4),
            GpuFormat::R16_FLOAT => Some(VertexAttributeFormat::Float16),
            GpuFormat::RG16_FLOAT => Some(VertexAttributeFormat::Float16x2),
            GpuFormat::RGBA16_FLOAT => Some(VertexAttributeFormat::Float16x4),
            GpuFormat::RGB16_FLOAT
            | GpuFormat::RGB10A2_UNORM
            | GpuFormat::RGB10A2_UINT
            | GpuFormat::RG11B10_FLOAT
            | GpuFormat::D32_FLOAT
            | GpuFormat::D32_FLOAT_S8_UINT
            | GpuFormat::D24_UNORM_S8_UINT
            | GpuFormat::D16_UNORM
            | GpuFormat::S8_UINT
            | GpuFormat::NoFormat => None,
        }
    }
}

/// One element of a vertex format: where in the vertex it is, its format, and the name the shader
/// reads it by.
pub struct VertexFormatElement {
    pub offset: u64,
    pub format: GpuFormat,
    pub name: String,
}

/// One of a pipeline's vertex formats: its elements in order, and the bytes of one vertex.
pub struct VertexFormat {
    pub elements: Vec<VertexFormatElement>,
    pub vertex_size: u64,
}

/// One attribute of a vertex buffer.
#[derive(Clone, Copy, Debug, PartialEq, Eq, Structural)]
pub struct VertexAttribute {
    pub format: VertexAttributeFormat,
    pub offset: u64,
    pub shader_location: u32,
}

/// One vertex buffer of a pipeline: the bytes from one vertex to the next, and its attributes.
pub struct VertexBufferAttributes {
    pub stride: u64,
    pub attributes: Vec<VertexAttribute>,
}

/// The elements of every format, in order.
pub open spec fn all_elements(formats: Seq<VertexFormat>) -> Seq<VertexFormatElement>
    decreases formats.len(),
{
    if formats.len() == 0 {
        Seq::empty()
    } else {
        all_elements(formats.drop_last()) + formats.last().elements@
    }
}

/// The attributes of the elements `elems`, the first of which is at shader location `base`:
/// element `k` is at `base + k`, and an element with no attribute format still takes its
/// location rather than shifting the ones after it.
pub open spec fn attributes_from(elems: Seq<VertexFormatElement>, base: int) -> Seq<VertexAttribute>
    decreases elems.len(),
{
    if elems.len() == 0 {
        Seq::empty()
    } else {
        let before = attributes_from(elems.drop_last(), base);
        match spec_vertex_format(elems.last().format) {
            Some(f) => before.push(
                VertexAttribute {
                    format: f,
                    offset: elems.last().offset,
                    shader_location: (base + elems.len() - 1) as u32,
                },
            ),
            None => before,
        }
    }
}

/// The vertex buffers of a pipeline with vertex formats `formats`, as (stride, attributes): one per
/// format that has elements, in order; a format with none declares no buffer, which would make its
/// slot mandatory at draw time.
pub open spec fn buffer_layouts(formats: Seq<VertexFormat>) -> Seq<(u64, Seq<VertexAttribute>)>
    decreases formats.len(),
{
    if formats.len() == 0 {
        Seq::empty()
    } else {
        let before = buffer_layouts(formats.drop_last());
        let last = formats.last();
        if last.elements@.len() == 0 {
            before
        } else {
            before.push(
                (
                    last.vertex_size,
                    attributes_from(last.elements@, all_elements(formats.drop_last()).len() as int),
                ),
            )
        }
    }
}

/// The (stride, attributes) of each buffer.
pub open spec fn layouts_view(buffers: Seq<VertexBufferAttributes>) -> Seq<(u64, Seq<VertexAttribute>)> {
    buffers.map_values(|b: VertexBufferAttributes| (b.stride, b.attributes@))
}

/// The (name, location) of each input.
pub open spec fn inputs_view(inputs: Seq<(String, u32)>) -> Seq<(Seq<char>, u32)> {
    inputs.map_values(|p: (String, u32)| (p.0@, p.1))
}

proof fn lemma_all_elements_step(formats: Seq<VertexFormat>, i: int)
    requires
        0 <= i < formats.len(),
    ensures
        all_elements(formats.take(i + 1)) == all_elements(formats.take(i)) + formats[i].elements@,
        buffer_layouts(formats.take(i + 1)) == if formats[i].elements@.len() == 0 {
            buffer_layouts(formats.take(i))
        } else {
            buffer_layouts(formats.take(i)).push(
                (
                    formats[i].vertex_size,
                    attributes_from(formats[i].elements@, all_elements(formats.take(i)).len() as int),
                ),
            )
        },
{
    assert(formats.take(i + 1).drop_last() =~= formats.take(i));
}

/// The shader location of every vertex element, by name: the elements of all the formats
/// numbered in order from zero.
pub fn input_locations(formats: &Vec<VertexFormat>) -> (inputs: Vec<(String, u32)>)
    requires
        all_elements(formats@).len() <= u32::MAX,
    ensures
        inputs_view(inputs@) == Seq::new(
            all_elements(formats@).len(),
            |i: int| (all_elements(formats@)[i].name@, i as u32),
        ),
{
    let ghost all = all_elements(formats@);
    let mut inputs: Vec<(String, u32)> = Vec::new();
    let mut location: u32 = 0;
    let mut i: usize = 0;
    proof {
        assert(formats@.take(0) =~= Seq::<VertexFormat>::empty());
    }
    while i < formats.len()
        invariant
            i <= formats@.len(),
            all == all_elements(formats@),
            all.len() <= u32::MAX,
            location == all_elements(formats@.take(i as int)).len(),
            all_elements(formats@.take(i as int)).len() <= all.len(),
            inputs_view(inputs@) == Seq::new(
                location as nat,
                |k: int| (all_elements(formats@.take(i as int))[k].name@, k as u32),
            ),
            forall|k: int|
                0 <= k < location ==> #[trigger] all_elements(formats@.take(i as int))[k] == all[k],
        decreases formats.len() - i,
    {
        proof {
            lemma_all_elements_step(formats@, i as int);
            lemma_all_elements_prefix(formats@, i as int + 1);
        }
        let elements = &formats[i].elements;
        let mut j: usize = 0;
        let ghost start = location;
        let ghost before = all_elements(formats@.take(i as int));
        let ghost after = all_elements(formats@.take(i as int + 1));
        while j < elements.len()
            invariant
                i < formats@.len(),
                *elements == formats@[i as int].elements,
                after == before + elements@,
                after.len() <= all.len(),
                all.len() <= u32::MAX,
                start == before.len(),
                j <= elements@.len(),
                location == start + j,
                inputs_view(inputs@) == Seq::new(location as nat, |k: int| (after[k].name@, k as u32)),
            decreases elements.len() - j,
        {
            let name = elements[j].name.clone();
            assert(after[location as int] == elements@[j as int]);
            assert(name@ == elements@[j as int].name@);
            let ghost old_inputs = inputs@;
            let ghost entry = (name@, location);
            inputs.push((name, location));
            assert(inputs_view(inputs@) =~= inputs_view(old_inputs).push(entry));
            assert(Seq::new((location + 1) as nat, |k: int| (after[k].name@, k as u32)) =~= Seq::new(
                location as nat,
                |k: int| (after[k].name@, k as u32),
            ).push(entry));
            location = location + 1;
            j = j + 1;
        }
        proof {
            assert forall|k: int| 0 <= k < location implies #[trigger] all_elements(
                formats@.take(i as int + 1),
            )[k] == all[k] by {
                lemma_all_elements_prefix(formats@, i as int + 1);
            }
        }
        i = i + 1;
    }
    assert(formats@.take(formats@.len() as int) =~= formats@);
    inputs
}

/// The elements of the first `n` formats are the first elements of all of them.
proof fn lemma_all_elements_prefix(formats: Seq<VertexFormat>, n: int)
    requires
        0 <= n <= formats.len(),
    ensures
        all_elements(formats.take(n)).len() <= all_elements(formats).len(),
        forall|k: int|
            0 <= k < all_elements(formats.take(n)).len() ==> #[trigger] all_elements(formats.take(n))[k]
                == all_elements(formats)[k],
    decreases formats.len() - n,
{
    if n == formats.len() {
        assert(formats.take(n) =~= formats);
    } else {
        lemma_all_elements_prefix(formats, n + 1);
        lemma_all_elements_step(formats, n);
        let a = all_elements(formats.take(n));
        let b = all_elements(formats.take(n + 1));
        assert forall|k: int| 0 <= k < a.len() implies #[trigger] a[k] == all_elements(formats)[k] by {
            assert(b[k] == a[k]);
        }
    }
}

/// The attributes of one format's elements, the first at shader location `base`.
fn attributes_of(format: &VertexFormat, base: u32) -> (attributes: Vec<VertexAttribute>)
    requires
        base + format.elements@.len() <= u32::MAX,
    ensures
        attributes@ == attributes_from(format.elements@, base as int),
{
    let mut attributes: Vec<VertexAttribute> = Vec::new();
    let mut location = base;
    let mut j: usize = 0;
    proof {
        assert(format.elements@.take(0) =~= Seq::<VertexFormatElement>::empty());
    }
    while j < format.elements.len()
        invariant
            base + format.elements@.len() <= u32::MAX,
            j <= format.elements@.len(),
            location == base + j,
            attributes@ == attributes_from(format.elements@.take(j as int), base as int),
        decreases format.elements.len() - j,
    {
        let element = &format.elements[j];
        let at = location;
        location = location + 1;
        proof {
            assert(format.elements@.take(j as int + 1).drop_last() =~= format.elements@.take(j as int));
        }
        match element.format.to_wgpu_vertex_format() {
            Some(f) => {
                attributes.push(VertexAttribute { format: f, offset: element.offset, shader_location: at });
            },
            None => {},
        }
        j = j + 1;
    }
    assert(format.elements@.take(format.elements@.len() as int) =~= format.elements@);
    attributes
}

/// The vertex buffers of a pipeline: see [`buffer_layouts`].
pub fn vertex_buffers(formats: &Vec<VertexFormat>) -> (buffers: Vec<VertexBufferAttributes>)
    requires
        all_elements(formats@).len() <= u32::MAX,
    ensures
        layouts_view(buffers@) == buffer_layouts(formats@),
{
    let mut buffers: Vec<VertexBufferAttributes> = Vec::new();
    let mut location: u32 = 0;
    let mut i: usize = 0;
    proof {
        assert(formats@.take(0) =~= Seq::<VertexFormat>::empty());
    }
    while i < formats.len()
        invariant
            i <= formats@.len(),
            all_elements(formats@).len() <= u32::MAX,
            location == all_elements(formats@.take(i as int)).len(),
            layouts_view(buffers@) == buffer_layouts(formats@.take(i as int)),
        decreases formats.len() - i,
    {
        proof {
            lemma_all_elements_step(formats@, i as int);
            lemma_all_elements_prefix(formats@, i as int + 1);
        }
        let format = &formats[i];
        let base = location;
        let attributes = attributes_of(format, base);
        location = location + format.elements.len() as u32;
        if format.elements.len() > 0 {
            let ghost before = layouts_view(buffers@);
            buffers.push(VertexBufferAttributes { stride: format.vertex_size, attributes });
            assert(layouts_view(buffers@) =~= before.push(
                (format.vertex_size, attributes_from(format.elements@, base as int)),
            ));
        }
        i = i + 1;
    }
    assert(formats@.take(formats@.len() as int) =~= formats@);
    buffers
}

} // verus!
