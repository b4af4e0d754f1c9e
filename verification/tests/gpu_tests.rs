use llama_recipe_manager::gpu::{
    nvidia_smi_binaries, parse_nvidia_smi, parse_rocm_smi, parse_system_profiler, tool_output,
};
use llama_recipe_manager::units::parse_mib;

#[test]
fn nvidia_single_device() {
    let out = "NVIDIA GeForce RTX 4090, 24564, 8.9";
    let d = parse_nvidia_smi(out).expect("devices");
    assert_eq!(d.len(), 1);
    assert_eq!(d[0].name, "NVIDIA GeForce RTX 4090");
    assert_eq!(d[0].vram_mib, 24_564);
    assert_eq!(d[0].compute_capability, "8.9");
}

#[test]
fn nvidia_multiple_devices() {
    let out = "\
NVIDIA GeForce RTX 4090, 24564, 8.9
NVIDIA GeForce RTX 4090, 24564, 8.9
NVIDIA A100-SXM4-40GB, 40960, 8.0";
    let d = parse_nvidia_smi(out).expect("devices");
    assert_eq!(d.len(), 3);
    assert_eq!(d[2].name, "NVIDIA A100-SXM4-40GB");
    assert_eq!(d[2].vram_mib, 40_960);
}

#[test]
fn nvidia_no_devices_returns_none() {
    assert!(parse_nvidia_smi("No devices were found\n").is_none());
    assert!(parse_nvidia_smi("").is_none());
}

#[test]
fn rocm_smi_parse() {
    let out = "\
GPU[0]\t\t: Name of GPU card\t\t: AMD Radeon RX 7900 XTX
GPU[0]\t\t: Vram total memory\t\t: 24576 MB";
    let d = parse_rocm_smi(out).expect("devices");
    assert_eq!(d.len(), 1);
    assert_eq!(d[0].name, "AMD Radeon RX 7900 XTX");
    // 24576 MB -> 23437.5 MiB (rounded)
    assert_eq!(d[0].vram_mib, 23_438);
}

#[test]
fn rocm_smi_empty() {
    assert!(parse_rocm_smi("No devices found\n").is_none());
}

#[test]
fn system_profiler_nvidia() {
    let out = "\
Graphics/Displays:

    NVIDIA GeForce RTX 4090:

      Chipset Model: NVIDIA GeForce RTX 4090
      Type: GPU
      Bus: PCIe
      PCIe Lane Width: x16
      VRAM (Total): 24 GB
      Vendor: NVIDIA (0x10de)
      Metal: Supported";
    let d = parse_system_profiler(out).expect("devices");
    assert_eq!(d.len(), 1);
    assert_eq!(d[0].name, "NVIDIA GeForce RTX 4090");
    assert_eq!(d[0].vram_mib, 24 * 1024);
}

#[test]
fn system_profiler_apple_silicon() {
    let out = "\
Graphics/Displays:

    Apple M4 Max:

      Chipset Model: Apple M4 Max
      Type: GPU
      Bus: Built-In
      Total Number of Cores: 40
      Vendor: Apple (0x106b)
      Metal: Metal 3";
    let d = parse_system_profiler(out).expect("devices");
    assert_eq!(d.len(), 1);
    assert_eq!(d[0].name, "Apple M4 Max");
    assert_eq!(d[0].vram_mib, 0); // no VRAM line on Apple Silicon
}

#[test]
fn parse_mib_units() {
    assert_eq!(parse_mib("24576 MB"), 23_438);
    assert_eq!(parse_mib("24 GB"), 24 * 1024);
    assert_eq!(parse_mib("16384 MiB"), 16_384);
    assert_eq!(parse_mib("16384"), 16_384);
    assert_eq!(parse_mib(""), 0);
}

// ── more cases ───────────────────────────────────────────────────────────────

#[test]
fn nvidia_missing_fields_default() {
    let d = parse_nvidia_smi("Some GPU\nOther GPU, n/a").expect("devices");
    assert_eq!(d.len(), 2);
    assert_eq!(d[0].name, "Some GPU");
    assert_eq!(d[0].vram_mib, 0);
    assert_eq!(d[0].compute_capability, "");
    assert_eq!(d[1].name, "Other GPU");
    assert_eq!(d[1].vram_mib, 0);
}

#[test]
fn nvidia_no_supported_devices_is_none() {
    assert!(parse_nvidia_smi("NVIDIA-SMI has failed: No supported GPUs").is_none());
    assert!(parse_nvidia_smi("\n  \n, 100, 8.0\n").is_none());
}

#[test]
fn rocm_cards_sorted_by_key_and_last_value_wins() {
    let out = "\
GPU[1]\t: Card series\t: Product Name\t: Second Card
GPU[0]\t: Name of GPU card\t: First Card
GPU[0]\t: Vram total memory\t: 1048576 MB
GPU[0]\t: VRAM Total Memory (B)\t: 2048 MiB
GPU[1]\t: Name of GPU card\t: Second Card Renamed";
    let d = parse_rocm_smi(out).expect("devices");
    assert_eq!(d.len(), 2);
    assert_eq!(d[0].name, "First Card");
    assert_eq!(d[0].vram_mib, 2048);
    assert_eq!(d[1].name, "Second Card Renamed");
    assert_eq!(d[1].vram_mib, 0);
}

#[test]
fn rocm_vram_without_name_reports_nothing() {
    assert!(parse_rocm_smi("Total VRAM : 8192 MiB").is_none());
}

#[test]
fn rocm_line_without_gpu_key_uses_global_slot() {
    let d = parse_rocm_smi("Product Name : Radeon\nvram memory : 512 MiB").expect("devices");
    assert_eq!(d.len(), 1);
    assert_eq!(d[0].name, "Radeon");
    assert_eq!(d[0].vram_mib, 512);
}

#[test]
fn system_profiler_uses_title_when_chipset_missing() {
    let out = "\
Graphics/Displays:

    Radeon Pro:

      VRAM (Total): 8 GB
";
    let d = parse_system_profiler(out).expect("devices");
    assert_eq!(d.len(), 1);
    assert_eq!(d[0].name, "Radeon Pro");
    assert_eq!(d[0].vram_mib, 8192);
}

#[test]
fn system_profiler_two_blocks() {
    let out = "\
Graphics/Displays:

    Intel UHD Graphics 630:

      Chipset Model: Intel UHD Graphics 630
      VRAM (Dynamic, Max): 1536 MB

    AMD Radeon Pro 5500M:

      Chipset Model: AMD Radeon Pro 5500M
      VRAM (Total): 4 GB
";
    let d = parse_system_profiler(out).expect("devices");
    assert_eq!(d.len(), 2);
    assert_eq!(d[0].name, "Intel UHD Graphics 630");
    assert_eq!(d[0].vram_mib, 0);
    assert_eq!(d[1].name, "AMD Radeon Pro 5500M");
    assert_eq!(d[1].vram_mib, 4096);
}

#[test]
fn system_profiler_empty_chipset_falls_back_to_title() {
    let out = "    Mystery GPU:\nChipset Model:\n";
    let d = parse_system_profiler(out).expect("devices");
    assert_eq!(d[0].name, "Mystery GPU");
    assert!(parse_system_profiler("Graphics/Displays:\n").is_none());
}

#[test]
fn parse_mib_more_units() {
    assert_eq!(parse_mib("1.5 GB"), 1536);
    assert_eq!(parse_mib("0.1 GB"), 102);
    assert_eq!(parse_mib("2048 KiB"), 2);
    assert_eq!(parse_mib("2048 kib"), 2);
    assert_eq!(parse_mib("512 KiB"), 1);
    assert_eq!(parse_mib("1.9 KiB"), 0);
    assert_eq!(parse_mib("8 GiB"), 8192);
    assert_eq!(parse_mib("24576.0 MiB"), 24576);
    assert_eq!(parse_mib("0.5"), 1);
    assert_eq!(parse_mib("2.4"), 2);
    assert_eq!(parse_mib(".5 MiB"), 1);
    assert_eq!(parse_mib("1000000 MB"), 953_674);
    assert_eq!(parse_mib("~24GB~"), 24_576);
    assert_eq!(parse_mib("n/a"), 0);
    assert_eq!(parse_mib("1.2.3 GB"), 0);
    assert_eq!(parse_mib("0 GB"), 0);
    assert_eq!(parse_mib("   "), 0);
}

#[test]
fn parse_mib_saturates() {
    assert_eq!(parse_mib("99999999999999999999999999 GB"), u64::MAX);
    assert_eq!(parse_mib("18446744073709551615"), u64::MAX);
}

#[test]
fn tool_output_joins_and_trims() {
    assert_eq!(tool_output("  out\n", "err  "), Some("out\nerr".to_string()));
    assert_eq!(tool_output(" \n", "\t"), None);
}

#[test]
fn nvidia_smi_candidates() {
    assert_eq!(nvidia_smi_binaries(false), vec!["nvidia-smi"]);
    assert_eq!(
        nvidia_smi_binaries(true),
        vec!["nvidia-smi", "C:\\Windows\\System32\\nvidia-smi.exe"]
    );
}

#[test]
fn parse_mib_exponents() {
    assert_eq!(parse_mib("1e3"), 1000);
    assert_eq!(parse_mib("1E+2 MiB"), 100);
    assert_eq!(parse_mib("2.5e2 MB"), 238);
    assert_eq!(parse_mib("123456789e-8 GB"), 1264);
    assert_eq!(parse_mib("1.5e3 KiB"), 1);
    assert_eq!(parse_mib("5e-1"), 1);
    assert_eq!(parse_mib("1e-3"), 0);
    assert_eq!(parse_mib("1.e1"), 10);
    assert_eq!(parse_mib("0.000001e6"), 1);
    assert_eq!(parse_mib("1e400 GB"), u64::MAX);
    assert_eq!(parse_mib("1e99999999999999999999999999"), u64::MAX);
    assert_eq!(parse_mib("0e99999999999999999999999999"), 0);
    assert_eq!(parse_mib("7e-99999999999999999999999999"), 0);
    assert_eq!(parse_mib("1e5.5"), 0);
    assert_eq!(parse_mib("12e"), 12);
}
