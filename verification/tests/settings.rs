use wgpu_mc_core::settings::{backend_attempts, config_file, selected_backend};
use wgpu_mc_core::debug::{name, DebugFlags, Flag, Markers};
use wgpu_mc_core::pix::PixCapture;
use wgpu_mc_core::settings::{
    off, two_frames_in_flight, BoolSetting, EnumSetting, GraphicsBackend, IntSetting, LanguageKey,
    Platform, SettingInfo, Settings, DEBUG_SECTION, OPTIMIZATION_SECTION,
};

#[test]
fn the_debug_defaults_are_what_the_renderer_did_before_they_existed() {
    let debug = Settings::default().debug();

    assert!(!debug.diagnostics, "logging was off");
    assert!(!debug.logging, "the diagnostic log was off");
    assert!(!debug.trace_dynamic_offsets, "tracing was off");
    assert!(!debug.binding_verbosity, "the binding log was off");
    assert!(!debug.dump_shaders, "shader dumps were off");
    assert!(!debug.gpu_timestamps, "nothing measured the GPU");
    assert!(!debug.pix_capture, "no capture was being taken");
    assert!(debug.bind_group_cache, "the cache was on");
    assert!(debug.dynamic_offsets, "dynamic offsets were on");
    assert!(
        !debug.gpu_based_validation,
        "GPU-based validation is a development tool, not a default"
    );
}

#[test]
fn the_selected_index_names_the_backend() {
    let mut settings = Settings::default();
    assert_eq!(settings.graphics_backend(), GraphicsBackend::Vulkan);

    settings.backend = EnumSetting::from_variant(GraphicsBackend::DirectX12);
    assert_eq!(settings.backend.selected, 1);
    assert_eq!(settings.graphics_backend(), GraphicsBackend::DirectX12);
}

#[test]
fn an_out_of_range_index_falls_back_instead_of_panicking() {
    let mut settings = Settings::default();
    settings.backend = EnumSetting { selected: 7 };

    assert_eq!(settings.graphics_backend(), GraphicsBackend::Vulkan);
}

#[test]
fn frames_in_flight_are_clamped_to_one_to_three() {
    let mut settings = Settings::default();
    assert_eq!(settings.frames_in_flight(), 2);

    settings.frames_in_flight.value = 0;
    assert_eq!(settings.frames_in_flight(), 1);
    settings.frames_in_flight.value = -5;
    assert_eq!(settings.frames_in_flight(), 1);
    settings.frames_in_flight.value = 9;
    assert_eq!(settings.frames_in_flight(), 3);
    settings.frames_in_flight.value = 3;
    assert_eq!(settings.frames_in_flight(), 3);
}

#[test]
fn the_setting_defaults_and_ranges() {
    assert!(BoolSetting::default().value);
    assert!(!off().value);

    let frames = two_frames_in_flight();
    assert_eq!((frames.get_min(), frames.get_max(), frames.get_step(), frames.value), (1, 3, 1, 2));

    let plain = IntSetting::default();
    assert_eq!((plain.get_min(), plain.get_max(), plain.get_step(), plain.value), (0, 100, 1, 0));
}

#[test]
fn each_backend_has_a_name_a_key_and_an_alternative() {
    assert_eq!(GraphicsBackend::variants(), vec![GraphicsBackend::Vulkan, GraphicsBackend::DirectX12]);
    assert_eq!(GraphicsBackend::Vulkan.display_name(), "Vulkan");
    assert_eq!(GraphicsBackend::DirectX12.display_name(), "DirectX 12");
    assert_eq!(GraphicsBackend::DirectX12.lang_key(), "wgpu_mc.option.backend.directx12");
    assert_eq!(GraphicsBackend::Vulkan.lang_key(), "wgpu_mc.option.backend.vulkan");
    assert_eq!(GraphicsBackend::Vulkan.alternative(), GraphicsBackend::DirectX12);
    assert_eq!(GraphicsBackend::DirectX12.alternative(), GraphicsBackend::Vulkan);

    let windows = Platform { windows: true, linux: false };
    let linux = Platform { windows: false, linux: true };
    assert!(GraphicsBackend::Vulkan.is_available_here(windows));
    assert!(GraphicsBackend::Vulkan.is_available_here(linux));
    assert!(GraphicsBackend::DirectX12.is_available_here(windows));
    assert!(!GraphicsBackend::DirectX12.is_available_here(linux));
}

#[test]
fn a_setting_info_carries_its_section() {
    assert_eq!(SettingInfo::new("plain", true).section, None);
    assert_eq!(SettingInfo::debug("switch", false).section, Some("Debug"));
    assert_eq!(SettingInfo::optimization("switch", false).section, Some("Optimization"));
    assert_eq!(DEBUG_SECTION, "Debug");
    assert_eq!(OPTIMIZATION_SECTION, "Optimization");
    assert!(SettingInfo::debug("switch", true).needs_restart);
}

#[test]
fn a_marker_turns_a_switch_on_or_off_whatever_the_setting() {
    let mut flags = DebugFlags::new();
    let mut pix = PixCapture::new();
    let settings = Settings::default();

    // The defaults change nothing.
    assert!(flags.apply(&settings, &Markers::none(), &mut pix).is_empty());
    assert!(flags.bind_group_cache() && flags.dynamic_offsets() && !flags.diagnostics());

    // The off markers win over the settings, the on markers over their absence.
    let markers = Markers {
        dump_frames: true,
        no_bind_group_cache: true,
        no_dynamic_offsets: false,
        trace_dynamic_offsets: false,
        dump_shaders: true,
    };
    let changed = flags.apply(&settings, &markers, &mut pix);
    assert_eq!(changed, vec![Flag::Diagnostics, Flag::BindGroupCache, Flag::DumpShaders]);
    assert!(flags.diagnostics() && !flags.bind_group_cache() && flags.dump_shaders());

    // Applying again changes nothing.
    assert!(flags.apply(&settings, &markers, &mut pix).is_empty());

    // The timestamps and the capture follow their setting alone.
    let mut capture = Settings::default();
    capture.pix_capture.value = true;
    capture.gpu_timestamps.value = true;
    assert!(!pix.wanted);
    let changed = flags.apply(&capture, &markers, &mut pix);
    assert_eq!(changed, vec![Flag::GpuTimestamps, Flag::PixCapture]);
    assert!(flags.pix_capture() && flags.gpu_timestamps() && !flags.gpu_based_validation());
    // The capture's switch follows the setting, and its next tick takes the capture.
    assert!(pix.wanted);
    // Turning the setting off again turns the switch off.
    flags.apply(&settings, &markers, &mut pix);
    assert!(!pix.wanted && !flags.gpu_timestamps());
    assert!(!flags.trace_dynamic_offsets());

    assert_eq!(name(Flag::BindGroupCache), "bind group cache");
    assert_eq!(name(Flag::GpuBasedValidation), "gpu based validation");
}

fn schema() -> String {
    wgpu_mc_core::settings::settings_info().to_json()
}

fn parsed() -> serde_json::Value {
    serde_json::from_str(&schema()).expect("schema")
}

#[test]
fn the_sections_are_contiguous_and_optimizations_come_first() {
    let json = schema();
    let position = |name: &str| {
        json.find(&format!("\"{name}\""))
            .unwrap_or_else(|| panic!("{name} is not in the schema at all"))
    };

    let plain = ["backend", "vsync"];
    let optimization = ["bind_group_cache", "dynamic_offsets"];
    let debug = [
        "gpu_based_validation",
        "logging",
        "diagnostics",
        "trace_dynamic_offsets",
        "binding_verbosity",
        "dump_shaders",
        "gpu_timestamps",
        "pix_capture",
    ];

    for earlier in plain {
        for later in optimization.iter().chain(debug.iter()) {
            assert!(
                position(earlier) < position(later),
                "{earlier} is listed after {later}, so the page draws a heading over it"
            );
        }
    }

    for earlier in optimization {
        for later in debug {
            assert!(
                position(earlier) < position(later),
                "{earlier} is listed after {later}: the sections are not in order, and one of \
                 them is split in two"
            );
        }
    }
}

#[test]
fn every_value_of_an_enum_setting_names_a_translation_key() {
    let info = parsed();
    let backend = &info["backend"];

    let variants = backend["variants"].as_array().expect("variants");
    let keys = backend["variant_keys"].as_array().expect("variant_keys");

    assert_eq!(keys.len(), variants.len(), "one key per value: the options screen shows them in this order");

    for key in keys {
        let key = key.as_str().expect("a string key");
        assert!(
            key.starts_with("wgpu_mc.option.backend."),
            "{key} is not a key of this mod's settings namespace"
        );
    }

    assert_eq!(
        keys[1],
        serde_json::Value::String("wgpu_mc.option.backend.directx12".to_string()),
        "the second value is DirectX 12, which is what the display name says"
    );
}

#[test]
fn the_debug_switches_are_offered_under_a_heading() {
    let info = parsed();

    for name in [
        "gpu_based_validation",
        "logging",
        "diagnostics",
        "trace_dynamic_offsets",
        "binding_verbosity",
        "dump_shaders",
        "gpu_timestamps",
        "pix_capture",
        "section_timing",
    ] {
        assert_eq!(
            info[name]["section"],
            serde_json::Value::String("Debug".to_string()),
            "{name} is a debug switch and belongs under the heading"
        );
    }

    for name in ["bind_group_cache", "dynamic_offsets"] {
        assert_eq!(
            info[name]["section"],
            serde_json::Value::String("Optimization".to_string()),
            "{name} is an optimisation and belongs under its own heading"
        );
    }

    assert!(info["backend"].get("section").is_none());
    assert!(info["vsync"].get("section").is_none());
}

#[test]
fn only_gpu_based_validation_needs_a_restart() {
    let info = parsed();

    for name in ["gpu_based_validation", "pix_capture"] {
        assert_eq!(
            info[name]["needs_restart"],
            serde_json::Value::Bool(true),
            "{name} is decided while the device is created"
        );
    }

    for name in [
        "logging",
        "diagnostics",
        "bind_group_cache",
        "dynamic_offsets",
        "trace_dynamic_offsets",
        "binding_verbosity",
        "dump_shaders",
        "gpu_timestamps",
    ] {
        assert_eq!(
            info[name]["needs_restart"],
            serde_json::Value::Bool(false),
            "{name} applies without a restart"
        );
    }
}

#[test]
fn the_schema_marks_the_backend_as_needing_a_restart() {
    let info = parsed();
    let backend = &info["backend"];

    assert_eq!(backend["needs_restart"], serde_json::Value::Bool(true));
    assert_eq!(
        backend["variants"],
        serde_json::Value::Array(vec![
            serde_json::Value::String("Vulkan".to_string()),
            serde_json::Value::String("DirectX 12".to_string()),
        ]),
        "the options screen renders these verbatim"
    );
}

#[test]
fn the_schema_is_what_serde_json_would_write() {
    let json = schema();
    // Written without spaces, fields in declaration order, quotes in a description escaped.
    assert!(json.starts_with("{\"backend\":{\"desc\":\"Graphics API wgpu renders with."));
    assert!(json.contains("\"needs_restart\":true,\"variants\":[\"Vulkan\",\"DirectX 12\"],\"variant_keys\":[\"wgpu_mc.option.backend.vulkan\",\"wgpu_mc.option.backend.directx12\"]}"));
    assert!(json.contains("\\\"what does one section rebuild cost, and which part of it\\\""));
    assert!(json.ends_with("\"needs_restart\":false,\"section\":\"Debug\"}}"));
    let info = parsed();
    assert_eq!(info.as_object().expect("an object").len(), 14);
    assert!(info["section_timing"]["desc"].as_str().expect("a string").contains("\"what does one section"));
}

#[test]
fn the_chosen_backend_is_tried_first_and_only_where_it_can_run() {
    let windows = Platform { windows: true, linux: false };
    let linux = Platform { windows: false, linux: true };
    let mac = Platform { windows: false, linux: false };
    assert_eq!(
        backend_attempts(GraphicsBackend::DirectX12, windows),
        vec![GraphicsBackend::DirectX12, GraphicsBackend::Vulkan]
    );
    assert_eq!(
        backend_attempts(GraphicsBackend::Vulkan, windows),
        vec![GraphicsBackend::Vulkan, GraphicsBackend::DirectX12]
    );
    assert_eq!(backend_attempts(GraphicsBackend::DirectX12, linux), vec![GraphicsBackend::Vulkan]);
    assert!(backend_attempts(GraphicsBackend::Vulkan, mac).is_empty());
    assert_eq!(selected_backend(None), GraphicsBackend::Vulkan);
    let mut settings = Settings::default();
    settings.backend.selected = 1;
    assert_eq!(selected_backend(Some(&settings)), GraphicsBackend::DirectX12);
}

#[test]
fn a_config_left_at_the_old_location_is_still_used() {
    assert_eq!(config_file(true), "config/fabric/wgpu-mc-renderer.json");
    assert_eq!(config_file(false), "config/wgpu-mc-renderer.json");
}
