use wgpu_mc_core::adapter::{backend_name, get_adapter_description, trimmed, vendor_name, AdapterInfo, Backend};
use wgpu_mc_core::shaderpack::{ShaderPackConfig, CONFIG_VERSION, CONFIG_VERSION_TRIPLE};

fn info(vendor: u32, backend: Backend, driver: &str, driver_info: &str) -> AdapterInfo {
    AdapterInfo {
        vendor,
        name: "NVIDIA GeForce RTX 4060 Laptop GPU".to_string(),
        backend,
        driver: driver.to_string(),
        driver_info: driver_info.to_string(),
    }
}

#[test]
fn listed_vendors_are_named() {
    assert_eq!(vendor_name(0x10DE), "NVIDIA");
    assert_eq!(vendor_name(0x1002), "AMD");
    assert_eq!(vendor_name(0x1022), "AMD");
    assert_eq!(vendor_name(0x8086), "Intel");
    assert_eq!(vendor_name(0x8087), "Intel");
    assert_eq!(vendor_name(0x106B), "Apple");
    assert_eq!(vendor_name(0x13B5), "ARM");
    assert_eq!(vendor_name(0x5143), "Qualcomm");
    assert_eq!(vendor_name(0x1010), "Imagination Technologies");
    assert_eq!(vendor_name(0x1AE0), "Google");
    assert_eq!(vendor_name(0x1234), "");
}

#[test]
fn backends_go_by_their_api_names() {
    assert_eq!(backend_name(Backend::Vulkan), "Vulkan");
    assert_eq!(backend_name(Backend::Dx12), "DirectX 12");
    assert_eq!(backend_name(Backend::Metal), "Metal");
    assert_eq!(backend_name(Backend::Gl), "OpenGL");
    assert_eq!(backend_name(Backend::BrowserWebGpu), "WebGPU");
    assert_eq!(backend_name(Backend::Noop), "no backend");
}

#[test]
fn vulkan_reports_driver_and_version_on_one_line() {
    let text = get_adapter_description(&info(0x10DE, Backend::Vulkan, "NVIDIA", "552.44"));
    assert_eq!(text, "NVIDIA\nNVIDIA GeForce RTX 4060 Laptop GPU\nVulkan\nNVIDIA 552.44");
}

#[test]
fn dx12_reports_the_version_alone() {
    let text = get_adapter_description(&info(0x8086, Backend::Dx12, " 31.0.101.5333 ", "  "));
    assert_eq!(text, "Intel\nNVIDIA GeForce RTX 4060 Laptop GPU\nDirectX 12\n31.0.101.5333");
}

#[test]
fn an_unlisted_vendor_is_printed_as_its_id() {
    let text = get_adapter_description(&info(0xab, Backend::Gl, "", ""));
    assert_eq!(text, "vendor 0x00ab\nNVIDIA GeForce RTX 4060 Laptop GPU\nOpenGL\nunknown driver");
    let wide = get_adapter_description(&info(0x1_2345, Backend::Metal, "", "\tMesa 24\u{3000}"));
    assert_eq!(wide, "vendor 0x12345\nNVIDIA GeForce RTX 4060 Laptop GPU\nMetal\nMesa 24");
}

#[test]
fn trimming_drops_unicode_whitespace_at_both_ends() {
    let t: String = trimmed("\u{a0} a b\n\u{2029}").into_iter().collect();
    assert_eq!(t, "a b");
    assert!(trimmed(" \t\r\n").is_empty());
    assert_eq!(trimmed("x").len(), 1);
}

fn pack(version: &str) -> ShaderPackConfig {
    ShaderPackConfig { version: version.to_string(), support: "glsl".to_string() }
}

#[test]
fn each_version_part_loses_its_last_character() {
    assert_eq!(CONFIG_VERSION, "v0.0.1");
    assert_eq!(CONFIG_VERSION_TRIPLE, (0, 0, 1));
    // "0", "0", "1" lose their only digit and no longer parse.
    assert!(!pack(CONFIG_VERSION).is_correct_version());
    assert!(pack("v0x.0x.1x").is_correct_version());
    assert!(pack("v00.00.10").is_correct_version());
    assert!(pack("v+00.00.99").is_correct_version());
}

#[test]
fn a_wrong_major_or_minor_or_count_is_refused() {
    assert!(!pack("v10.00.10").is_correct_version());
    assert!(!pack("v00.10.10").is_correct_version());
    assert!(!pack("v00.00").is_correct_version());
    assert!(!pack("v00.00.10.10").is_correct_version());
    // The third number must parse.
    assert!(!pack("v00.00.xx").is_correct_version());
    assert!(!pack("v00.00.99999999999").is_correct_version());
}

#[test]
fn a_blank_or_broken_name_still_gives_four_lines() {
    let mut blank = info(0x10DE, Backend::Vulkan, "NVIDIA", "552.44");
    blank.name = " \t ".to_string();
    // A name of spaces is a name, and comes back as reported; only an empty one is unknown.
    assert_eq!(get_adapter_description(&blank), "NVIDIA\n \t \nVulkan\nNVIDIA 552.44");
    blank.name = String::new();
    assert_eq!(get_adapter_description(&blank), "NVIDIA\nunknown adapter\nVulkan\nNVIDIA 552.44");

    let mut broken = info(0x1002, Backend::Vulkan, "radv\n", "Mesa\r\n24.1");
    broken.name = "AMD Radeon\nRX 7600\n".to_string();
    let text = get_adapter_description(&broken);
    assert_eq!(text, "AMD\nAMD Radeon RX 7600 \nVulkan\nradv Mesa  24.1");
    assert_eq!(text.split('\n').count(), 4);
    assert!(text.split('\n').all(|line| !line.is_empty()));
}
