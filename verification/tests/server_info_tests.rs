use llama_recipe_manager::server_info::prefer_tool_devices;
use llama_recipe_manager::gpu::GpuDevice;
use llama_recipe_manager::server_info::parse_llama_server_info;

fn assert_device(gpu: &GpuDevice, name: &str, vram_mib: u64, cc: &str) {
    assert_eq!(gpu.name, name, "device name");
    assert_eq!(gpu.vram_mib, vram_mib, "vram_mib for {name}");
    assert_eq!(gpu.compute_capability, cc, "compute capability for {name}");
}

#[test]
fn parses_cuda_device_without_vram_in_line() {
    // llama.cpp's real CUDA line has no VRAM token.
    let info = parse_llama_server_info(
        "version: 4471 (abc123)\n\
         built with cc (GCC) 13.2.0 for x86_64-linux-gnu\n\
           Device 0: NVIDIA GeForce RTX 4090, compute capability 8.9, VMM: yes"
            .to_string(),
    );
    assert_eq!(info.gpu_devices.len(), 1);
    assert_device(&info.gpu_devices[0], "NVIDIA GeForce RTX 4090", 0, "8.9");
}

#[test]
fn parses_cuda_device_with_vram_in_line() {
    let info = parse_llama_server_info(
        "version: 4471\n\
         Device 0: NVIDIA GeForce RTX 3090, VRAM: 24564 MiB, compute capability 8.6"
            .to_string(),
    );
    assert_eq!(info.gpu_devices.len(), 1);
    assert_device(
        &info.gpu_devices[0],
        "NVIDIA GeForce RTX 3090",
        24_564,
        "8.6",
    );
}

#[test]
fn parses_multiple_cuda_devices() {
    let info = parse_llama_server_info(
        "version: 4471\n\
         Device 0: NVIDIA GeForce RTX 4090, compute capability 8.9, VMM: yes\n\
         Device 1: NVIDIA GeForce RTX 4090, compute capability 8.9, VMM: yes"
            .to_string(),
    );
    assert_eq!(info.gpu_devices.len(), 2);
    assert_eq!(info.gpu_devices[0].name, "NVIDIA GeForce RTX 4090");
    assert_eq!(info.gpu_devices[1].name, "NVIDIA GeForce RTX 4090");
}

#[test]
fn parses_metal_found_device_with_total_vram() {
    let info = parse_llama_server_info(
        "version: 4471\n\
         ggml_metal_init: found device: Apple M4 Max\n\
         Total VRAM: 131072 MiB"
            .to_string(),
    );
    assert_eq!(info.gpu_devices.len(), 1);
    assert_device(&info.gpu_devices[0], "Apple M4 Max", 131_072, "");
}

#[test]
fn parses_vulkan_style_found_device() {
    let info = parse_llama_server_info(
        "vulkan_find_device: found device: AMD Radeon RX 7900 XTX\n\
         Total VRAM: 24576 MiB"
            .to_string(),
    );
    assert_eq!(info.gpu_devices.len(), 1);
    assert_device(&info.gpu_devices[0], "AMD Radeon RX 7900 XTX", 24_576, "");
}

#[test]
fn cpu_only_yields_no_devices() {
    let info = parse_llama_server_info("version: 4471\nbuilt with cc (GCC) 13.2.0\n".to_string());
    assert!(info.gpu_devices.is_empty());
}

#[test]
fn falls_back_to_generic_gpu_when_only_total_vram_present() {
    let info = parse_llama_server_info("something\nTotal VRAM: 12288 MiB\ntrailing".to_string());
    assert_eq!(info.gpu_devices.len(), 1);
    assert_device(&info.gpu_devices[0], "GPU", 12_288, "");
}

#[test]
fn does_not_treat_cuda_init_count_as_device() {
    let info = parse_llama_server_info(
        "ggml_cuda_init: found 1 CUDA devices\nDevice 0: NVIDIA A100, compute capability 8.0"
            .to_string(),
    );
    assert_eq!(info.gpu_devices.len(), 1);
    assert_eq!(info.gpu_devices[0].name, "NVIDIA A100");
}

// ── more cases ───────────────────────────────────────────────────────────────

#[test]
fn reads_version_and_compiler() {
    let out = "version: 4471 (abc123)\nbuilt with cc (GCC) 13.2.0 for x86_64-linux-gnu\n";
    let info = parse_llama_server_info(out.to_string());
    assert_eq!(info.version, "4471 (abc123)");
    assert_eq!(info.compiler, "built with cc (GCC) 13.2.0 for x86_64-linux-gnu");
    assert_eq!(info.raw_output, out);
}

#[test]
fn generic_fallback_names_cuda_when_mentioned() {
    let info = parse_llama_server_info("CUDA build\nTotal VRAM: 8192 MiB".to_string());
    assert_eq!(info.gpu_devices.len(), 1);
    assert_device(&info.gpu_devices[0], "CUDA GPU", 8192, "");
}

#[test]
fn zero_total_vram_gives_no_fallback_device() {
    let info = parse_llama_server_info("Total VRAM: 0 MiB".to_string());
    assert!(info.gpu_devices.is_empty());
}

#[test]
fn device_line_without_name_is_skipped() {
    let info = parse_llama_server_info("Device 0: , compute capability 8.9".to_string());
    assert!(info.gpu_devices.is_empty());
}

#[test]
fn found_device_takes_total_vram_from_any_line() {
    let info = parse_llama_server_info(
        "Total VRAM: 0 MiB\nfound device: X\nTotal VRAM: 4096 MiB".to_string(),
    );
    assert_eq!(info.gpu_devices.len(), 1);
    assert_device(&info.gpu_devices[0], "X", 4096, "");
}

#[test]
fn tool_devices_win_when_found() {
    let parsed = vec![GpuDevice { name: "GPU".to_string(), vram_mib: 1, compute_capability: String::new() }];
    let tool = vec![GpuDevice { name: "RTX".to_string(), vram_mib: 2, compute_capability: "8.9".to_string() }];
    assert_eq!(prefer_tool_devices(parsed.clone(), tool.clone()), tool);
    assert_eq!(prefer_tool_devices(parsed.clone(), Vec::new()), parsed);
}
