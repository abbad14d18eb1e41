use std::collections::HashMap;
use sysmon::dxgi::{adapter_from_description, DxgiAdapter};
use sysmon::pdh::mem_used_by_luid;
use sysmon::usage::{cpu_name, disk_used_bytes, nvidia_adapter_count, pick_per_adapter, VENDOR_NVIDIA};
use sysmon::wmi_gpu::{gpu_stats_from_rows, GpuEngineRow, GpuMemoryRow};

fn engine(name: &str, pct: u64) -> GpuEngineRow {
    GpuEngineRow { name: name.to_string(), utilization_percentage: pct }
}

fn memory(name: &str, bytes: u64) -> GpuMemoryRow {
    GpuMemoryRow { name: name.to_string(), dedicated_usage: bytes }
}

#[test]
fn wmi_usage_sums_engines_and_caps_at_100() {
    let engines = vec![
        engine("pid_1_luid_0x00000000_0x00000010_phys_0_eng_0_engtype_3D", 30),
        engine("pid_2_luid_0x00000000_0x00000010_phys_0_eng_1_engtype_Copy", 25),
        engine("pid_3_luid_0x00000000_0x00000020_phys_0_eng_0_engtype_3D", 90),
        engine("pid_3_luid_0x00000000_0x00000020_phys_0_eng_1_engtype_3D", 40),
        engine("pid_3_luid_0x00000000_0x00000020_phys_0_eng_2_engtype_3D", 5),
        engine("_Total", 77),
        engine("pid_4_luid_0x00000000_0x00000030_phys_0", u64::MAX),
        engine("pid_4_luid_0x00000000_0x00000030_phys_0", 3),
    ];
    let mems = vec![
        memory("luid_0x00000000_0x00000010_phys_0", 100),
        memory("luid_0x00000000_0x00000010_phys_0", 250),
        memory("luid_0x00000000_0x00000020_phys_0", 7),
        memory("no luid here", 9),
    ];
    let stats = gpu_stats_from_rows(&engines, &mems);
    assert_eq!(stats.usage_by_luid.len(), 3);
    assert_eq!(stats.usage_by_luid.get(&0x10), Some(&55));
    assert_eq!(stats.usage_by_luid.get(&0x20), Some(&100));
    assert_eq!(stats.usage_by_luid.get(&0x30), Some(&100));
    assert_eq!(stats.mem_used_by_luid.len(), 2);
    assert_eq!(stats.mem_used_by_luid.get(&0x10), Some(&250));
    assert_eq!(stats.mem_used_by_luid.get(&0x20), Some(&7));
}

#[test]
fn wmi_usage_cap_applies_at_each_step() {
    // 90 + 40 caps at 100, then + 5 stays at 100 rather than 135 capped once.
    let engines = vec![
        engine("luid_0x0_0x1_p", 90),
        engine("luid_0x0_0x1_p", 40),
        engine("luid_0x0_0x1_p", 5),
    ];
    let stats = gpu_stats_from_rows(&engines, &Vec::new());
    assert_eq!(stats.usage_by_luid.get(&1), Some(&100));
    assert!(stats.mem_used_by_luid.is_empty());
}

#[test]
fn pdh_memory_keeps_last_reading_per_adapter() {
    let rows = vec![
        ("luid_0x00000000_0x0000D1B4_phys_0".to_string(), 1000u64),
        ("luid_0x00000001_0x00000002_phys_0".to_string(), 5),
        ("luid_0x00000000_0x0000D1B4_phys_0".to_string(), 2000),
        ("_Total".to_string(), 1),
    ];
    let m = mem_used_by_luid(&rows);
    assert_eq!(m.len(), 2);
    assert_eq!(m.get(&0xD1B4), Some(&2000));
    assert_eq!(m.get(&((1i64 << 32) | 2)), Some(&5));
}

fn description(text: &str) -> [u16; 128] {
    let mut d = [0u16; 128];
    for (i, u) in text.encode_utf16().enumerate() {
        d[i] = u;
    }
    d
}

#[test]
fn adapter_from_description_reads_fields() {
    let d = description("NVIDIA GeForce RTX 4070");
    let a = adapter_from_description(0, &d, 0, 0xD1B4, VENDOR_NVIDIA, 12 << 30).unwrap();
    assert_eq!(a.name, "NVIDIA GeForce RTX 4070");
    assert_eq!(a.luid, 0xD1B4);
    assert_eq!(a.vendor_id, 0x10DE);
    assert_eq!(a.total_vram_bytes, 12u64 << 30);
}

#[test]
fn adapter_luid_uses_high_half_bits() {
    let d = description("x");
    let a = adapter_from_description(1, &d, -1, 2, 0x8086, 0).unwrap();
    assert_eq!(a.luid, 0xFFFF_FFFF_0000_0002u64 as i64);
}

#[test]
fn software_adapter_is_skipped() {
    let d = description("Microsoft Basic Render Driver");
    assert!(adapter_from_description(2, &d, 0, 1, 0x1414, 0).is_none());
    assert!(adapter_from_description(3, &d, 0, 1, 0x1414, 0).is_none());
}

#[test]
fn adapter_name_without_nul_uses_whole_description() {
    let d: Vec<u16> = "ABC".encode_utf16().collect();
    let a = adapter_from_description(0, &d, 0, 0, 0, 0).unwrap();
    assert_eq!(a.name, "ABC");
}

#[test]
fn adapter_name_with_unpaired_surrogate_is_lossy() {
    let d = [0x41u16, 0xD800, 0x42, 0];
    let a = adapter_from_description(0, &d, 0, 0, 0, 0).unwrap();
    assert_eq!(a.name, "A\u{FFFD}B");
}

fn adapter(luid: i64, vendor: u32) -> DxgiAdapter {
    DxgiAdapter { luid, name: format!("gpu{}", luid), vendor_id: vendor, total_vram_bytes: 0 }
}

#[test]
fn nvidia_adapters_take_nvml_readings_in_turn() {
    let adapters = vec![
        adapter(1, 0x8086),
        adapter(2, VENDOR_NVIDIA),
        adapter(3, 0x1002),
        adapter(4, VENDOR_NVIDIA),
        adapter(5, VENDOR_NVIDIA),
    ];
    assert_eq!(nvidia_adapter_count(&adapters), 3);
    let mut table: HashMap<i64, u64> = HashMap::new();
    table.insert(1, 10);
    table.insert(2, 20);
    table.insert(4, 40);
    table.insert(5, 50);
    let nvml = vec![Some(200u64), None, Some(500)];
    let picked = pick_per_adapter(&adapters, Some(&table), &nvml, 0);
    assert_eq!(picked, vec![10, 200, 0, 40, 500]);
    let no_counters = pick_per_adapter(&adapters, None, &nvml, 0);
    assert_eq!(no_counters, vec![0, 200, 0, 0, 500]);
    let short_nvml = pick_per_adapter(&adapters, Some(&table), &vec![None], 7);
    assert_eq!(short_nvml, vec![10, 20, 7, 40, 50]);
}

#[test]
fn float_readings_pass_through() {
    let adapters = vec![adapter(9, VENDOR_NVIDIA), adapter(8, 1)];
    let mut table: HashMap<i64, f32> = HashMap::new();
    table.insert(8, 12.5);
    let picked = pick_per_adapter(&adapters, Some(&table), &vec![Some(33.0f32)], 0.0);
    assert_eq!(picked, vec![33.0, 12.5]);
}

#[test]
fn disk_used_saturates() {
    assert_eq!(disk_used_bytes(100, 30), 70);
    assert_eq!(disk_used_bytes(100, 130), 0);
    assert_eq!(disk_used_bytes(0, 0), 0);
}

#[test]
fn cpu_name_is_trimmed_or_unknown() {
    assert_eq!(cpu_name(Some("  AMD Ryzen 7 7800X3D 8-Core Processor   ")), "AMD Ryzen 7 7800X3D 8-Core Processor");
    assert_eq!(cpu_name(None), "Unknown Cpu");
    assert_eq!(cpu_name(Some("")), "");
}

#[test]
fn cpu_name_trims_unicode_white_space() {
    assert_eq!(cpu_name(Some("\u{3000}\t Intel(R) Core(TM) i7\u{85}\u{2029}")), "Intel(R) Core(TM) i7");
    assert_eq!(cpu_name(Some("a\u{200B}")), "a\u{200B}");
}

#[test]
fn adapter_name_decodes_surrogate_pairs() {
    // U+1F600 is the pair D83D DE00; a lone trailing surrogate becomes U+FFFD.
    let d = [0x47u16, 0xD83D, 0xDE00, 0xDC00, 0xD800, 0x48, 0];
    let a = adapter_from_description(0, &d, 0, 0, 0, 0).unwrap();
    assert_eq!(a.name, "G\u{1F600}\u{FFFD}\u{FFFD}H");
}
