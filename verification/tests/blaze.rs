use wgpu_mc_core::blaze::{geometry_plan, index_format, vertex_slots, GeometryDraw, IndexFormat};
use wgpu_mc_core::blaze::{contains, trace_filter, trace_filter_matches};
use wgpu_mc_core::blaze::{
    binding_size, dynamic_offset, fold, may_travel, BindGroupPlan, BlendFactor, CompareFunction,
    GpuFormat, GroupEntry, OffsetPolicy, PlanBinding, PlannedResource, PrimitiveTopology,
    RawArray, SlotEntry, UniformType, COMBO_TAG, DrawBinding, DRAW_BINDING_BUFFER, DRAW_BINDING_SAMPLER,
    DRAW_BINDING_TEXTURE,
};

fn terrain_plan() -> BindGroupPlan {
    BindGroupPlan::number(
        "terrain",
        &vec![vec![
            ("Projection".to_string(), UniformType::UBO),
            ("Sampler0".to_string(), UniformType::Sampler),
        ]],
    )
}

fn policy() -> OffsetPolicy {
    OffsetPolicy { enabled: true, only: None }
}

#[test]
fn only_a_uniform_of_a_plan_that_has_one_may_carry_its_offset() {
    let uniform = PlannedResource::Uniform { min_size: Some(64) };
    let storage = PlannedResource::Storage;
    let texture = PlannedResource::Texture { cube: false };
    let sampler = PlannedResource::Sampler;

    assert!(may_travel(true, &uniform));
    assert!(!may_travel(false, &uniform));
    assert!(!may_travel(true, &storage));
    assert!(!may_travel(true, &texture));
    assert!(!may_travel(true, &sampler));

    assert_eq!(PlanBinding::kind_of(&uniform), DRAW_BINDING_BUFFER);
    assert_eq!(PlanBinding::kind_of(&storage), DRAW_BINDING_BUFFER);
}

#[test]
fn a_combined_sampler_is_two_bindings_under_the_shim_names() {
    let plan = terrain_plan();
    assert_eq!(plan.name, "terrain");
    assert_eq!(plan.sets.len(), 1);
    let set = &plan.sets[0];
    assert_eq!(set.len(), 3);

    assert_eq!((set[0].name.as_str(), set[0].declared_name.as_str(), set[0].binding), ("Projection", "Projection", 0));
    assert_eq!(set[0].resource, PlannedResource::Uniform { min_size: None });
    assert_eq!(
        (set[1].name.as_str(), set[1].declared_name.as_str(), set[1].binding),
        ("Sampler0_wm_texshim", "Sampler0", 1)
    );
    assert_eq!(set[1].resource, PlannedResource::Texture { cube: false });
    assert_eq!(
        (set[2].name.as_str(), set[2].declared_name.as_str(), set[2].binding),
        ("Sampler0_wm_sampler", "Sampler0", 2)
    );
    assert_eq!(set[2].resource, PlannedResource::Sampler);

    assert!(plan.has_uniforms);
    assert_eq!(plan.salt, 17944340956284222184);
    assert_eq!(plan.dynamic_counts(), vec![1]);
}

#[test]
fn a_plan_without_uniforms_says_so() {
    let plan = BindGroupPlan::number(
        "clouds",
        &vec![vec![], vec![("CloudFaces".to_string(), UniformType::TexelBuffer)]],
    );
    assert!(!plan.has_uniforms);
    assert_eq!(plan.dynamic_counts(), vec![0, 0]);
    assert_eq!(plan.sets[1][0].resource, PlannedResource::Storage);
}

#[test]
fn the_shader_finds_each_binding_by_its_name_and_a_texel_buffer_by_its_declared_one() {
    let plan = BindGroupPlan::number(
        "clouds",
        &vec![
            vec![("Projection".to_string(), UniformType::UBO)],
            vec![("CloudFaces".to_string(), UniformType::TexelBuffer)],
        ],
    );
    assert_eq!(
        plan.shader_locations(),
        vec![
            ("Projection".to_string(), (0, 0)),
            ("CloudFaces".to_string(), (1, 0)),
            ("CloudFaces".to_string(), (1, 0)),
        ]
    );
}

#[test]
fn implicit_uniforms_join_the_first_set_in_binding_order() {
    let mut plan = terrain_plan();
    plan.add_implicit_uniforms(&vec![("Globals".to_string(), 4), ("Fog".to_string(), 1)]);
    let names: Vec<(&str, u32)> = plan.sets[0].iter().map(|b| (b.name.as_str(), b.binding)).collect();
    assert_eq!(
        names,
        vec![
            ("Projection", 0),
            ("Sampler0_wm_texshim", 1),
            ("Fog", 1),
            ("Sampler0_wm_sampler", 2),
            ("Globals", 4),
        ]
    );
    assert_eq!(plan.sets[0][2].resource, PlannedResource::Uniform { min_size: None });

    // Nothing to add changes nothing; a plan without sets gets one.
    let mut empty = BindGroupPlan::number("empty", &vec![]);
    empty.add_implicit_uniforms(&vec![]);
    assert!(empty.sets.is_empty());
    // Nothing to add leaves every field alone, the flag and the salt included.
    let mut flagged = BindGroupPlan::number("flagged", &vec![]);
    flagged.has_uniforms = true;
    flagged.salt = 42;
    flagged.add_implicit_uniforms(&vec![]);
    assert!(flagged.has_uniforms && flagged.salt == 42 && flagged.sets.is_empty());
    let salt_without = empty.salt;
    assert!(!empty.has_uniforms);
    empty.add_implicit_uniforms(&vec![("Globals".to_string(), 0)]);
    assert_eq!(empty.sets.len(), 1);
    assert_eq!(empty.sets[0][0].name, "Globals");
    // The plan has a uniform binding now, and its salt says so.
    assert!(empty.has_uniforms);
    assert_ne!(empty.salt, salt_without);
    assert_eq!(empty.salt, BindGroupPlan::number("empty", &vec![vec![("Globals".to_string(), UniformType::UBO)]]).salt);
}

#[test]
fn block_sizes_and_sampler_kinds_fill_in_by_declared_name() {
    let mut plan = terrain_plan();
    plan.apply_block_sizes(&vec![
        ("Projection".to_string(), 64),
        ("Sampler0".to_string(), 16),
        ("Projection".to_string(), 128),
    ]);
    assert_eq!(plan.sets[0][0].resource, PlannedResource::Uniform { min_size: Some(128) });
    assert_eq!(plan.sets[0][1].resource, PlannedResource::Texture { cube: false });

    plan.apply_sampler_types(&vec![("Sampler0".to_string(), true)]);
    assert_eq!(plan.sets[0][1].resource, PlannedResource::Texture { cube: true });
    assert_eq!(plan.sets[0][2].resource, PlannedResource::Sampler);
}

#[test]
fn the_bound_size_is_the_shader_block_and_never_past_the_buffer() {
    assert_eq!(binding_size(1024, 256, 320, None), 64);
    assert_eq!(binding_size(1024, 256, 320, Some(16)), 16);
    assert_eq!(binding_size(260, 256, 272, None), 4);
    assert_eq!(binding_size(100, 256, 320, None), 1);
    assert_eq!(binding_size(1024, 256, 256, None), 1);
}

#[test]
fn fold_is_rotate_xor_multiply() {
    assert_eq!(fold(0, 0), 0);
    assert_eq!(fold(1, 2), 242678309088164554);
}

fn terrain_slots() -> Vec<SlotEntry> {
    vec![
        SlotEntry { kind: DRAW_BINDING_BUFFER, address: 0x1000, offset: 256, length: 64, buffer_size: 1024 },
        SlotEntry { kind: DRAW_BINDING_TEXTURE, address: 0x2000, offset: 0, length: 0, buffer_size: 0 },
        SlotEntry { kind: DRAW_BINDING_SAMPLER, address: 0x3000, offset: 0, length: 0, buffer_size: 0 },
    ]
}

#[test]
fn an_unnumbered_draw_folds_its_resources_and_hands_over_aligned_offsets() {
    let plan = terrain_plan();
    let slots = terrain_slots();
    assert!(plan.check_slots(&slots));
    assert!(!plan.check_slots(&slots[..2].to_vec()));

    let folded = plan.fold_call(0, 1, &slots, 256, &policy());
    assert!(!folded.refused);
    assert_eq!(folded.key, 18236599946030371617);
    assert_eq!(folded.offsets, vec![vec![256]]);

    // The offset travels, so another offset is the same bind group.
    let mut moved = slots.clone();
    moved[0].offset = 512;
    let again = plan.fold_call(0, 1, &moved, 256, &policy());
    assert_eq!(again.key, folded.key);
    assert_eq!(again.offsets, vec![vec![512]]);

    // With dynamic offsets off, the offset is baked and part of the key.
    let baked = plan.fold_call(0, 1, &slots, 256, &OffsetPolicy { enabled: false, only: None });
    assert_ne!(baked.key, folded.key);
    assert_eq!(baked.offsets, vec![vec![0]]);

    // A list that does not name the uniform keeps it baked too.
    let listed = plan.fold_call(
        0,
        1,
        &slots,
        256,
        &OffsetPolicy { enabled: true, only: Some(vec!["Other".to_string()]) },
    );
    assert_eq!(listed.key, baked.key);
}

#[test]
fn a_numbered_draw_starts_from_its_number_and_folds_only_baked_offsets() {
    let plan = terrain_plan();
    let mut slots = terrain_slots();
    slots[0].offset = 100;

    let folded = plan.fold_call(5, 1, &slots, 256, &policy());
    assert!(!folded.refused);
    assert_eq!(folded.key, 428068040566817124);
    assert_eq!(folded.offsets, vec![vec![0]]);

    let aligned = plan.fold_call(5, 1, &terrain_slots(), 256, &policy());
    assert_eq!(aligned.key, COMBO_TAG | 5);
    assert_eq!(aligned.offsets, vec![vec![256]]);

    // Without its table, a plan with a uniform cannot be answered...
    let refused = plan.fold_call(5, 0, &vec![], 256, &policy());
    assert!(refused.refused);
    assert_eq!(refused.key, COMBO_TAG | 5);

    // ...and one without is answered from the number alone.
    let clouds = BindGroupPlan::number(
        "clouds",
        &vec![vec![("CloudFaces".to_string(), UniformType::TexelBuffer)]],
    );
    let answered = clouds.fold_call(9, 0, &vec![], 256, &policy());
    assert!(!answered.refused);
    assert_eq!(answered.key, COMBO_TAG | 9);
    assert_eq!(answered.offsets, vec![Vec::<u32>::new()]);
}

#[test]
fn a_bind_group_binds_a_travelling_offset_at_zero() {
    let plan = terrain_plan();
    let groups = plan.group_entries(&terrain_slots(), 256, &policy());
    assert_eq!(
        groups,
        vec![vec![
            GroupEntry { binding: 0, address: 0x1000, offset: 0, size: 64 },
            GroupEntry { binding: 1, address: 0x2000, offset: 0, size: 0 },
            GroupEntry { binding: 2, address: 0x3000, offset: 0, size: 0 },
        ]]
    );

    let baked = plan.group_entries(&terrain_slots(), 256, &OffsetPolicy { enabled: false, only: None });
    assert_eq!(baked[0][0], GroupEntry { binding: 0, address: 0x1000, offset: 256, size: 64 });

    assert!(dynamic_offset(&plan, &plan.sets[0][0], 256, 256, &policy()));
    assert!(!dynamic_offset(&plan, &plan.sets[0][0], 100, 256, &policy()));
    assert!(!dynamic_offset(&plan, &plan.sets[0][0], 1 << 33, 1, &policy()));
    assert!(dynamic_offset(&plan, &plan.sets[0][0], 0, 0, &policy()));
    assert!(!dynamic_offset(&plan, &plan.sets[0][1], 0, 256, &policy()));
}

#[test]
fn the_numbers_the_jvm_passes_name_the_variants() {
    assert_eq!(UniformType::from_raw(1), Some(UniformType::UBO));
    assert_eq!(UniformType::from_raw(3), None);
    assert_eq!(BlendFactor::from_raw(7), Some(BlendFactor::OneMinusSrcAlpha));
    assert_eq!(CompareFunction::from_raw(3), Some(CompareFunction::LessEqual));
    assert_eq!(PrimitiveTopology::from_raw(0), None);
    assert_eq!(PrimitiveTopology::from_raw(6), Some(PrimitiveTopology::TriangleFan));
    assert!(PrimitiveTopology::TriangleFan.is_fan());
    assert!(!PrimitiveTopology::Quads.is_fan());
    assert_eq!(GpuFormat::from_raw(56), Some(GpuFormat::S8_UINT));
    assert_eq!(GpuFormat::from_raw(57), None);
    assert_eq!(GpuFormat::RGBA8_UNORM.raw(), 7);
    assert_eq!(PrimitiveTopology::Quads.raw(), 7);
}

#[test]
fn the_slot_table_lists_every_binding_in_slot_order_or_nothing_when_it_does_not_fit() {
    let plan = BindGroupPlan::number(
        "terrain",
        &vec![
            vec![("Projection".to_string(), UniformType::UBO)],
            vec![("Sampler0".to_string(), UniformType::Sampler)],
        ],
    );
    let table = plan.plan_bindings(32).expect("three slots fit in thirty-two");
    let rows: Vec<(&str, &str, u32, u32, u32, u32)> = table
        .iter()
        .map(|p| (p.name.as_str(), p.declared_name.as_str(), p.set, p.binding, p.kind, p.dynamic))
        .collect();
    assert_eq!(
        rows,
        vec![
            ("Projection", "Projection", 0, 0, DRAW_BINDING_BUFFER, 1),
            ("Sampler0_wm_texshim", "Sampler0", 1, 0, DRAW_BINDING_TEXTURE, 0),
            ("Sampler0_wm_sampler", "Sampler0", 1, 1, DRAW_BINDING_SAMPLER, 0),
        ]
    );
    assert!(plan.plan_bindings(2).is_none());
    assert_eq!(plan.plan_bindings(3).map(|t| t.len()), Some(3));
}

#[test]
fn what_the_jvm_passes_reads_back_as_it_was_written() {
    let array = RawArray::from_vec(vec![3u32, 4, 5]);
    assert_eq!(array.len(), 3);
    assert!(!array.is_empty());
    assert_eq!(*array.get(1), 4);
    assert!(RawArray::<u32>::from_vec(vec![]).is_empty());

    let binding = DrawBinding { kind: DRAW_BINDING_BUFFER, resource: 0x40, offset: 8, length: 16 };
    assert_eq!(
        binding.resolved(64),
        SlotEntry { kind: DRAW_BINDING_BUFFER, address: 0x40, offset: 8, length: 16, buffer_size: 64 }
    );
    assert_eq!(DrawBinding::none().kind, 0);
}

#[test]
fn the_trace_filter_is_the_trimmed_text() {
    assert_eq!(trace_filter("  terrain\n"), Some("terrain".to_string()));
    assert_eq!(trace_filter(" \t\n"), None);
    assert_eq!(trace_filter(""), None);
}

#[test]
fn a_pipeline_is_traced_when_its_name_contains_the_filter() {
    assert!(trace_filter_matches(None, "minecraft:core/rendertype_solid"));
    assert!(trace_filter_matches(Some("solid"), "minecraft:core/rendertype_solid"));
    assert!(trace_filter_matches(Some("minecraft"), "minecraft:core/rendertype_solid"));
    assert!(!trace_filter_matches(Some("cutout"), "minecraft:core/rendertype_solid"));
    assert!(!trace_filter_matches(Some("solid!"), "solid"));
    assert!(contains("abc", ""));
    assert!(!contains("", "a"));
}

#[test]
fn a_fan_is_drawn_over_generated_indices_from_its_first_vertex() {
    let plan = geometry_plan(PrimitiveTopology::TriangleFan, false, 5, 10, 0, 0);
    assert_eq!(plan.draw, GeometryDraw::Fan { index_count: 9, base_vertex: 10 });
    assert_eq!(plan.instances, 1);
    assert_eq!(plan.counted_vertices, 0);
    let indexed = geometry_plan(PrimitiveTopology::TriangleFan, true, 4, 2, 100, 3);
    assert_eq!(indexed.draw, GeometryDraw::Fan { index_count: 6, base_vertex: 102 });
    assert_eq!(indexed.instances, 3);
    assert_eq!(indexed.counted_vertices, 12);
    // Too few vertices for a triangle: drawn as it came.
    let short = geometry_plan(PrimitiveTopology::TriangleFan, false, 2, 7, 0, 1);
    assert_eq!(short.draw, GeometryDraw::Plain { start: 7, end: 9 });
}

#[test]
fn unindexed_quads_take_the_quad_pattern() {
    let plan = geometry_plan(PrimitiveTopology::Quads, false, 9, 4, 0, 1);
    assert_eq!(plan.draw, GeometryDraw::Quads { index_count: 12, base_vertex: 4 });
    let indexed = geometry_plan(PrimitiveTopology::Quads, true, 8, 0, 16, 1);
    assert_eq!(indexed.draw, GeometryDraw::Indexed { start: 0, end: 8, base_vertex: 16 });
    let tris = geometry_plan(PrimitiveTopology::Tris, false, 6, 3, 0, 2);
    assert_eq!(tris.draw, GeometryDraw::Plain { start: 3, end: 9 });
    assert_eq!(tris.counted_vertices, 12);
}

#[test]
fn vertex_slots_and_index_formats() {
    assert_eq!(vertex_slots(0), Vec::<u32>::new());
    assert_eq!(vertex_slots(0b1000_0101), vec![0, 2, 7]);
    assert_eq!(vertex_slots(0xffff_ff00), Vec::<u32>::new());
    assert_eq!(index_format(2), IndexFormat::Uint32);
    assert_eq!(index_format(1), IndexFormat::Uint16);
    assert_eq!(index_format(0), IndexFormat::Uint16);
}

#[test]
fn a_default_draw_draws_nothing_once() {
    let call = wgpu_mc_core::blaze::DrawCall::default();
    assert_eq!(call.pipeline, 0);
    assert_eq!(call.instance_count, 1);
    assert_eq!(call.vertex_buffers.len(), 8);
    assert_eq!(call.bindings.len(), 32);
    assert!(call.bindings.iter().all(|b| *b == DrawBinding::none()));
    let plan = call.geometry(PrimitiveTopology::Tris);
    assert_eq!(plan.draw, GeometryDraw::Plain { start: 0, end: 0 });
    assert_eq!(plan.instances, 1);
}
