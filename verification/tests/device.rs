use wgpu_mc_core::device::{mapped_buffer_usages, padded_contents};
use wgpu_mc_core::device::{instance_flags, required_features, DeviceFeatures, InstanceFlags};
use wgpu_mc_core::device::{reapply_present_mode, ConfigureRequest};
use wgpu_mc_core::device::{surface_needs_configure, SurfaceConfig};
use wgpu_mc_core::device::{acquire_action, AcquireAction, AcquireOutcome};
use wgpu_mc_core::device::{preferred_alpha_mode, AlphaMode};
use wgpu_mc_core::device::mip_level_count;
use wgpu_mc_core::device::{texture_usage, view_range, TextureUsage, ViewRange};
use wgpu_mc_core::device::{PipelineCacheSaves, PipelineCacheState, PIPELINE_CACHE_SAVE_EVERY};
use wgpu_mc_core::blaze::{BindGroupPlan, PrimitiveTopology};
use wgpu_mc_core::device::{log_pipeline_once, BlazePipeline};
use wgpu_mc_core::renderer::{DeserializedLightData, MCTextureId, TextureDimensions, WindowSize};
use wgpu_mc_core::device::{
    argb_channels, cache_must_clear, fan_indices, preferred_surface_format, quad_indices,
    resolve_present_mode, texture_bytes, trace_marker, wgpu_buffer_usages, BufferUsage, Counters,
    PassTrace, PresentMode, PresentModeRequest, SurfaceFormat, TextureRegistry, NO_PASS_YET,
};

#[test]
fn a_present_request_resolves_to_a_supported_mode() {
    assert_eq!(PresentModeRequest::from_raw(0), PresentModeRequest::FromSettings);
    assert_eq!(PresentModeRequest::from_raw(1), PresentModeRequest::Fifo);
    assert_eq!(PresentModeRequest::from_raw(3), PresentModeRequest::Mailbox);
    assert_eq!(PresentModeRequest::from_raw(42), PresentModeRequest::FromSettings);

    let all = [PresentMode::Fifo, PresentMode::Immediate, PresentMode::Mailbox];
    let no_mailbox = [PresentMode::Fifo, PresentMode::Immediate];
    let fifo_only = [PresentMode::Fifo];

    assert_eq!(resolve_present_mode(PresentModeRequest::Fifo, Some(false), &all), PresentMode::Fifo);
    assert_eq!(resolve_present_mode(PresentModeRequest::Immediate, None, &all), PresentMode::Mailbox);
    assert_eq!(resolve_present_mode(PresentModeRequest::Mailbox, None, &no_mailbox), PresentMode::Immediate);
    assert_eq!(resolve_present_mode(PresentModeRequest::Mailbox, None, &fifo_only), PresentMode::Fifo);
    assert_eq!(resolve_present_mode(PresentModeRequest::FromSettings, None, &all), PresentMode::Fifo);
    assert_eq!(resolve_present_mode(PresentModeRequest::FromSettings, Some(true), &all), PresentMode::Fifo);
    assert_eq!(resolve_present_mode(PresentModeRequest::FromSettings, Some(false), &all), PresentMode::Mailbox);
}

#[test]
fn a_linear_swapchain_format_is_preferred() {
    assert_eq!(
        preferred_surface_format(&[SurfaceFormat::Bgra8UnormSrgb, SurfaceFormat::Rgba8Unorm]),
        SurfaceFormat::Rgba8Unorm
    );
    assert_eq!(
        preferred_surface_format(&[SurfaceFormat::Other(7), SurfaceFormat::Rgba8UnormSrgb]),
        SurfaceFormat::Rgba8UnormSrgb
    );
    assert_eq!(preferred_surface_format(&[SurfaceFormat::Other(7)]), SurfaceFormat::Other(7));
    assert_eq!(preferred_surface_format(&[]), SurfaceFormat::Bgra8Unorm);
}

#[test]
fn buffer_usages_follow_blaze3d_bits() {
    // Map-read only: mappable, and not also a copy source.
    assert_eq!(
        wgpu_buffer_usages(1),
        BufferUsage {
            map_read: true,
            map_write: false,
            copy_src: false,
            copy_dst: false,
            vertex: false,
            index: false,
            uniform: false,
            storage: false,
        }
    );
    // Map-write implies copy destination; a buffer that cannot be mapped for reading is a copy source.
    let write = wgpu_buffer_usages(2);
    assert!(write.map_write && write.copy_dst && write.copy_src);
    let uniform_vertex = wgpu_buffer_usages(128 | 32 | 256 | 64);
    assert!(uniform_vertex.uniform && uniform_vertex.vertex && uniform_vertex.storage && uniform_vertex.index);
    assert!(uniform_vertex.copy_src && !uniform_vertex.copy_dst);
    assert!(wgpu_buffer_usages(16 | 1).copy_src);
}

#[test]
fn colours_and_texture_costs() {
    assert_eq!(argb_channels(0x80FF_4020), (0xFF, 0x40, 0x20, 0x80));
    assert_eq!(texture_bytes(16, 16, 0), 1024);
    assert_eq!(texture_bytes(16, 16, 6), 6144);
}

#[test]
fn a_fan_becomes_a_list_of_triangles_around_the_first_vertex() {
    assert_eq!(fan_indices(2), None);
    assert_eq!(fan_indices(3), Some(vec![0, 1, 2]));
    assert_eq!(fan_indices(5), Some(vec![0, 1, 2, 0, 2, 3, 0, 3, 4]));
}

#[test]
fn quads_become_two_triangles_each() {
    assert_eq!(quad_indices(3), None);
    assert_eq!(quad_indices(4), Some((vec![0, 1, 2, 2, 3, 0], 6)));
    assert_eq!(
        quad_indices(9),
        Some((vec![0, 1, 2, 2, 3, 0, 4, 5, 6, 6, 7, 4], 12))
    );
    assert!(cache_must_clear(64, false));
    assert!(!cache_must_clear(64, true));
    assert!(!cache_must_clear(63, false));
}

#[test]
fn a_dropped_texture_is_refused_until_its_address_is_reused() {
    let mut registry: TextureRegistry<u32> = TextureRegistry::new();
    assert!(registry.is_alive(0x10), "an address never seen is accepted");

    registry.note_alive(0x10, "atlas".to_string(), 1024);
    assert!(registry.is_alive(0x10));
    assert_eq!((registry.live_count, registry.live_bytes), (1, 1024));

    registry.note_dead(0x10, 16, 16, 1, 7);
    assert!(!registry.is_alive(0x10));
    assert_eq!(registry.dead_description(0x10), Some((16, 16, 7)));
    assert_eq!((registry.live_count, registry.live_bytes), (0, 0));
    assert_eq!(registry.dead.get(&0x10).map(|d| d.0.as_str()), Some("atlas"));

    registry.note_alive(0x10, "target".to_string(), 64);
    assert!(registry.is_alive(0x10));
    assert_eq!(registry.dead_description(0x10), None);

    // An address nobody labelled is remembered as such.
    registry.note_dead(0x20, 1, 1, 1, 0);
    assert_eq!(registry.dead.get(&0x20).map(|d| d.0.as_str()), Some("<unlabelled>"));
}

#[test]
fn only_the_newest_tombstones_are_kept() {
    let mut registry: TextureRegistry<u32> = TextureRegistry::new();
    for address in 0..513usize {
        registry.note_dead(address, 1, 1, 1, 0);
    }
    assert_eq!(registry.order.len(), 512);
    assert!(registry.is_alive(0), "the oldest tombstone was forgotten");
    assert!(!registry.is_alive(1));
    assert!(!registry.is_alive(512));
}

#[test]
fn the_counters_close_each_pass_and_reset_when_taken() {
    let mut counters = Counters::new();
    assert_eq!(counters.last_pass_draws, NO_PASS_YET);

    counters.open_pass();
    assert_eq!((counters.passes, counters.empty_passes, counters.last_pass_draws), (1, 1, 0));
    counters.count_draw();
    counters.count_draw();
    counters.count_vertices(12);
    counters.count_pipeline_bind();
    counters.count_bind_groups(3);
    counters.count_cache_hit();
    counters.count_cache_miss();
    counters.open_pass();
    assert_eq!((counters.passes, counters.empty_passes, counters.last_pass_draws), (2, 1, 2));
    counters.count_draw();

    let stats = counters.take();
    assert_eq!((stats.passes, stats.draws, stats.vertices, stats.pipelines), (2, 3, 12, 1));
    assert_eq!((stats.bind_groups_created, stats.cache_hits, stats.cache_misses), (3, 1, 1));
    assert_eq!(stats.last_pass_draws, 2);
    assert_eq!((counters.passes, counters.draws, counters.last_pass_draws), (0, 0, NO_PASS_YET));
    assert_eq!(counters.current_pass_draws, 1, "the open pass keeps counting");
}

#[test]
fn a_pass_trace_keeps_a_few_distinct_pipelines_and_the_history_its_newest_entries() {
    let mut trace = PassTrace {
        draws: 0,
        clear: true,
        depth: false,
        target: "main".to_string(),
        pipelines: vec![],
    };
    for name in ["a", "b", "a", "c", "d", "e", "f", "g"] {
        trace.trace_pipeline(&name.to_string());
    }
    assert_eq!(trace.pipelines, vec!["a", "b", "c", "d", "e", "f"]);
    trace.trace_draw();
    assert_eq!(trace.draws, 1);

    let mut history: Vec<PassTrace> = Vec::new();
    for index in 0..20 {
        trace_marker(&mut history, &format!("present {index}"));
    }
    assert_eq!(history.len(), 16);
    assert_eq!(history[0].target, "present 4");
    assert_eq!(history[15].target, "present 19");
}

#[test]
fn a_pipeline_is_reported_the_first_time_it_is_bound() {
    let mut pipeline = BlazePipeline {
        topology: PrimitiveTopology::Tris,
        name: "terrain".to_string(),
        plan: BindGroupPlan::number("terrain", &vec![]),
        logged: false,
    };
    assert!(log_pipeline_once(&mut pipeline));
    assert!(!log_pipeline_once(&mut pipeline));
    assert!(pipeline.logged);
}

#[test]
fn small_values_keep_what_they_were_given() {
    let size = WindowSize { width: 854, height: 480 };
    assert_eq!((size.width, size.height), (854, 480));
    assert_ne!(MCTextureId::BlockAtlas, MCTextureId::Lightmap);
    assert_eq!(TextureDimensions { width: 64, height: 32 }.width, 64);
    let light = DeserializedLightData { sky_light: Box::new([15; 2048]), block_light: Box::new([0; 2048]) };
    assert_eq!(light.sky_light[2047], 15);
    assert_eq!(light.block_light[0], 0);
}

#[test]
fn the_swapchain_is_configured_only_when_something_changed() {
    let config = SurfaceConfig {
        width: 854,
        height: 480,
        format: SurfaceFormat::Bgra8Unorm,
        present_mode: PresentMode::Fifo,
    };
    assert!(surface_needs_configure(None, config, false));
    assert!(!surface_needs_configure(Some(config), config, false));
    assert!(surface_needs_configure(Some(config), config, true));
    let wider = SurfaceConfig { width: 1280, ..config };
    assert!(surface_needs_configure(Some(config), wider, false));
    let mailbox = SurfaceConfig { present_mode: PresentMode::Mailbox, ..config };
    assert!(surface_needs_configure(Some(config), mailbox, false));
    let empty = SurfaceConfig { width: 0, ..config };
    assert!(!surface_needs_configure(None, empty, true));
}

#[test]
fn a_stale_swapchain_is_rebuilt_with_the_mode_it_had() {
    let config = SurfaceConfig {
        width: 854,
        height: 480,
        format: SurfaceFormat::Bgra8Unorm,
        present_mode: PresentMode::Immediate,
    };
    assert_eq!(acquire_action(AcquireOutcome::Success, None), AcquireAction::Present);
    assert_eq!(acquire_action(AcquireOutcome::Suboptimal, Some(config)), AcquireAction::Present);
    assert_eq!(
        acquire_action(AcquireOutcome::Outdated, Some(config)),
        AcquireAction::Reconfigure(PresentModeRequest::Immediate)
    );
    let auto = SurfaceConfig { present_mode: PresentMode::AutoVsync, ..config };
    assert_eq!(
        acquire_action(AcquireOutcome::Validation, Some(auto)),
        AcquireAction::Reconfigure(PresentModeRequest::Mailbox)
    );
    assert_eq!(acquire_action(AcquireOutcome::Lost, None), AcquireAction::Skip);
    assert_eq!(acquire_action(AcquireOutcome::Timeout, Some(config)), AcquireAction::Skip);
    assert_eq!(acquire_action(AcquireOutcome::Occluded, Some(config)), AcquireAction::Skip);
}

#[test]
fn an_opaque_surface_is_preferred() {
    assert_eq!(preferred_alpha_mode(&[AlphaMode::Inherit, AlphaMode::Opaque]), AlphaMode::Opaque);
    assert_eq!(preferred_alpha_mode(&[AlphaMode::PreMultiplied]), AlphaMode::Auto);
    assert_eq!(preferred_alpha_mode(&[]), AlphaMode::Auto);
}

#[test]
fn a_texture_gets_the_mip_levels_its_size_can_hold() {
    // A 9x9 sprite holds four levels: 9, 4, 2, 1.
    assert_eq!(mip_level_count(9, 9, 5), 4);
    assert_eq!(mip_level_count(9, 9, 3), 3);
    assert_eq!(mip_level_count(1024, 512, 0), 1);
    assert_eq!(mip_level_count(1024, 512, 20), 11);
    assert_eq!(mip_level_count(0, 0, 7), 1);
    assert_eq!(mip_level_count(u32::MAX, 1, 40), 32);
}

#[test]
fn texture_usage_bits_and_view_ranges() {
    assert_eq!(
        texture_usage(0b1101),
        TextureUsage { copy_dst: true, copy_src: true, texture_binding: true, render_attachment: true }
    );
    assert_eq!(
        texture_usage(0),
        TextureUsage { copy_dst: false, copy_src: true, texture_binding: false, render_attachment: false }
    );
    assert_eq!(view_range(4, 1, 0, 0), ViewRange { base: 1, count: None, cube: false });
    assert_eq!(view_range(4, 9, 2, 16), ViewRange { base: 3, count: Some(1), cube: true });
    assert_eq!(view_range(4, 1, 10, 0), ViewRange { base: 1, count: Some(3), cube: false });
    assert_eq!(view_range(0, 5, 3, 0), ViewRange { base: 0, count: Some(1), cube: false });
}

#[test]
fn the_pipeline_cache_is_written_every_sixteenth_pipeline() {
    assert_eq!(PIPELINE_CACHE_SAVE_EVERY, 16);
    let mut saves = PipelineCacheSaves::new();
    for _ in 0..15 {
        assert!(!saves.compiled(true));
    }
    assert!(saves.compiled(true));
    assert_eq!(saves.since_last_save, 0);
    assert_eq!(saves.state, PipelineCacheState::Unknown);
    saves.read(false);
    assert_eq!(saves.state, PipelineCacheState::Private);
    saves.read(true);
    assert_eq!(saves.state, PipelineCacheState::Persisted);
    assert!(!saves.compiled(false));
    assert_eq!(saves.state, PipelineCacheState::Absent);
}

#[test]
fn applying_vsync_keeps_the_size_and_follows_the_settings() {
    let config = SurfaceConfig {
        width: 854,
        height: 480,
        format: SurfaceFormat::Bgra8Unorm,
        present_mode: PresentMode::Mailbox,
    };
    assert_eq!(reapply_present_mode(None), None);
    assert_eq!(
        reapply_present_mode(Some(config)),
        Some(ConfigureRequest {
            width: 854,
            height: 480,
            request: PresentModeRequest::FromSettings,
            force: false
        })
    );
}

#[test]
fn optional_features_are_asked_for_when_the_adapter_has_them() {
    let none = DeviceFeatures {
        mappable_primary_buffers: false,
        depth_clip_control: false,
        pipeline_cache: false,
        timestamp_query: false,
        timestamp_query_inside_encoders: false,
    };
    let base = required_features(none);
    assert!(base.mappable_primary_buffers && base.depth_clip_control);
    assert!(!base.pipeline_cache && !base.timestamp_query);
    let half = required_features(DeviceFeatures { timestamp_query: true, pipeline_cache: true, ..none });
    assert!(half.pipeline_cache);
    assert!(!half.timestamp_query && !half.timestamp_query_inside_encoders);
    let all = required_features(DeviceFeatures {
        timestamp_query: true,
        timestamp_query_inside_encoders: true,
        ..none
    });
    assert!(all.timestamp_query && all.timestamp_query_inside_encoders);
    assert_eq!(
        instance_flags(false),
        InstanceFlags { validation: true, debug: true, gpu_based_validation: false }
    );
    assert!(instance_flags(true).gpu_based_validation);
}

#[test]
fn a_mapped_buffer_keeps_the_mask_and_can_be_written() {
    // The texel buffer bit still asks for storage, and map-write is always there.
    let texel = mapped_buffer_usages(256);
    assert!(texel.storage && texel.map_write && texel.copy_src);
    // Map-write is added after the mask is read, so it brings no copy destination with it.
    assert!(!texel.copy_dst);
    assert!(!texel.map_read);
    // Only the low 32 bits of the mask count.
    assert_eq!(mapped_buffer_usages((1u64 << 32) | 128), mapped_buffer_usages(128));
    let readable = mapped_buffer_usages(1);
    assert!(readable.map_read && readable.map_write && !readable.copy_src);
}

#[test]
fn initial_contents_are_padded_to_sixteen_bytes() {
    let out = padded_contents(&[1, 2, 3]);
    assert_eq!(out.len(), 16);
    assert_eq!(&out[..3], &[1, 2, 3]);
    assert!(out[3..].iter().all(|b| *b == 0));
    let exact: Vec<u8> = (0..32).collect();
    assert_eq!(padded_contents(&exact), exact);
    assert!(padded_contents(&[]).is_empty());
    assert_eq!(padded_contents(&[7; 17]).len(), 32);
}
