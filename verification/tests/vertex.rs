use wgpu_mc_core::blaze::GpuFormat;
use wgpu_mc_core::vertex::{
    input_locations, vertex_buffers, VertexAttribute, VertexAttributeFormat, VertexFormat,
    VertexFormatElement,
};

fn element(name: &str, format: GpuFormat, offset: u64) -> VertexFormatElement {
    VertexFormatElement { offset, format, name: name.to_string() }
}

fn block_format() -> VertexFormat {
    VertexFormat {
        elements: vec![
            element("Position", GpuFormat::RGB32_FLOAT, 0),
            element("Color", GpuFormat::RGBA8_UNORM, 12),
            element("UV0", GpuFormat::RG32_FLOAT, 16),
            element("Normal", GpuFormat::RGB8_SNORM, 24),
        ],
        vertex_size: 28,
    }
}

#[test]
fn three_component_small_formats_are_read_as_four() {
    assert_eq!(GpuFormat::RGB8_SNORM.to_wgpu_vertex_format(), Some(VertexAttributeFormat::Snorm8x4));
    assert_eq!(GpuFormat::RGB16_UINT.to_wgpu_vertex_format(), Some(VertexAttributeFormat::Uint16x4));
    assert_eq!(GpuFormat::RGB32_FLOAT.to_wgpu_vertex_format(), Some(VertexAttributeFormat::Float32x3));
    assert_eq!(GpuFormat::RGB16_FLOAT.to_wgpu_vertex_format(), None);
    assert_eq!(GpuFormat::D32_FLOAT.to_wgpu_vertex_format(), None);
    assert_eq!(GpuFormat::NoFormat.to_wgpu_vertex_format(), None);
    assert_eq!(VertexAttributeFormat::Snorm8x4.size(), 4);
    assert_eq!(VertexAttributeFormat::Float32x3.size(), 12);
    assert_eq!(VertexAttributeFormat::Float16x4.size(), 8);
}

#[test]
fn inputs_are_numbered_across_every_format() {
    let formats = vec![
        VertexFormat { elements: vec![], vertex_size: 0 },
        block_format(),
        VertexFormat { elements: vec![element("Extra", GpuFormat::R32_UINT, 0)], vertex_size: 4 },
    ];
    let inputs = input_locations(&formats);
    let names: Vec<(&str, u32)> = inputs.iter().map(|(n, l)| (n.as_str(), *l)).collect();
    assert_eq!(
        names,
        vec![("Position", 0), ("Color", 1), ("UV0", 2), ("Normal", 3), ("Extra", 4)]
    );
}

#[test]
fn an_empty_format_declares_no_buffer_and_a_formatless_element_keeps_its_location() {
    let mut block = block_format();
    block.elements.insert(1, element("Odd", GpuFormat::RGB16_FLOAT, 12));
    let formats = vec![VertexFormat { elements: vec![], vertex_size: 0 }, block];
    let buffers = vertex_buffers(&formats);
    assert_eq!(buffers.len(), 1);
    assert_eq!(buffers[0].stride, 28);
    assert_eq!(
        buffers[0].attributes,
        vec![
            VertexAttribute { format: VertexAttributeFormat::Float32x3, offset: 0, shader_location: 0 },
            VertexAttribute { format: VertexAttributeFormat::Unorm8x4, offset: 12, shader_location: 2 },
            VertexAttribute { format: VertexAttributeFormat::Float32x2, offset: 16, shader_location: 3 },
            VertexAttribute { format: VertexAttributeFormat::Snorm8x4, offset: 24, shader_location: 4 },
        ]
    );
}
