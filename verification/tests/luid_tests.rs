use sysmon::luid::{compose_luid, parse_luid_from_name};
use sysmon::wmi_gpu;

#[test]
fn parses_engine_instance_name() {
    let name = "pid_1234_luid_0x00000000_0x0000D1B4_phys_0_eng_0_engtype_3D";
    assert_eq!(parse_luid_from_name(name), Some(0xD1B4));
}

#[test]
fn parses_adapter_memory_instance_name() {
    let name = "luid_0x00000001_0x0000ab12_phys_0";
    assert_eq!(parse_luid_from_name(name), Some((1i64 << 32) | 0xAB12));
}

#[test]
fn high_half_sets_sign_bit() {
    let name = "luid_0xFFFFFFFF_0x00000001_phys_0";
    assert_eq!(parse_luid_from_name(name), Some(0xFFFF_FFFF_0000_0001u64 as i64));
    assert_eq!(parse_luid_from_name(name), Some(-4294967295));
}

#[test]
fn low_half_may_run_to_end() {
    assert_eq!(parse_luid_from_name("luid_0x2_0x3"), Some((2i64 << 32) | 3));
}

#[test]
fn missing_marker_or_field_is_none() {
    assert_eq!(parse_luid_from_name("pid_12_phys_0"), None);
    assert_eq!(parse_luid_from_name("luid_0x1"), None);
    assert_eq!(parse_luid_from_name("luid_0x1_"), None);
    assert_eq!(parse_luid_from_name("luid__0x1"), None);
    assert_eq!(parse_luid_from_name(""), None);
}

#[test]
fn only_first_marker_counts() {
    assert_eq!(parse_luid_from_name("luid_zz_0x1_luid_0x0_0x5"), None);
    assert_eq!(parse_luid_from_name("xluid_0x0_0x7_luid_0x0_0x5"), Some(7));
}

#[test]
fn repeated_hex_prefixes_are_removed() {
    assert_eq!(parse_luid_from_name("luid_0x0x10_0x0x0x2_p"), Some((0x10i64 << 32) | 2));
}

#[test]
fn unsigned_reader_accepts_plus_rejects_minus_and_overflow() {
    assert_eq!(parse_luid_from_name("luid_+1_+2_p"), Some((1i64 << 32) | 2));
    assert_eq!(parse_luid_from_name("luid_-1_2_p"), None);
    assert_eq!(parse_luid_from_name("luid_100000000_0_p"), None);
    assert_eq!(parse_luid_from_name("luid_+_0_p"), None);
    assert_eq!(parse_luid_from_name("luid_0x_0_p"), None);
    assert_eq!(parse_luid_from_name("luid_0g_0_p"), None);
}

#[test]
fn unsigned_reader_accepts_leading_zeros() {
    assert_eq!(parse_luid_from_name("luid_000000000001_0_p"), Some(1i64 << 32));
}

#[test]
fn wmi_reader_parses_engine_instance_name() {
    let name = "pid_1234_luid_0x00000000_0x0000D1B4_phys_0_eng_0_engtype_3D";
    assert_eq!(wmi_gpu::parse_luid_from_name(name), Some(0xD1B4));
}

#[test]
fn wmi_reader_wraps_signed_and_wide_halves() {
    // -1 keeps its low 32 bits, 0xFFFFFFFF.
    assert_eq!(
        wmi_gpu::parse_luid_from_name("luid_-1_2_p"),
        Some(0xFFFF_FFFF_0000_0002u64 as i64)
    );
    // 2^32 has no low 32 bits.
    assert_eq!(wmi_gpu::parse_luid_from_name("luid_100000000_5_p"), Some(5));
    // The low half is masked to 32 bits.
    assert_eq!(wmi_gpu::parse_luid_from_name("luid_0_-1_p"), Some(0xFFFF_FFFF));
    assert_eq!(wmi_gpu::parse_luid_from_name("luid_0_-_p"), None);
    assert_eq!(
        wmi_gpu::parse_luid_from_name("luid_7FFFFFFFFFFFFFFF_0_p"),
        Some(0xFFFF_FFFF_0000_0000u64 as i64)
    );
    assert_eq!(wmi_gpu::parse_luid_from_name("luid_8000000000000000_0_p"), None);
    assert_eq!(wmi_gpu::parse_luid_from_name("luid_-8000000000000000_0_p"), Some(0));
}

#[test]
fn readers_agree_on_counter_names() {
    for (high, low) in [(0u32, 0u32), (0, 0xD1B4), (1, 2), (0x8000_0000, 0xFFFF_FFFF), (u32::MAX, u32::MAX)] {
        let name = format!("pid_99_luid_0x{:08X}_0x{:08X}_phys_0", high, low);
        let expected = compose_luid(high, low);
        assert_eq!(expected, (((high as u64) << 32) | low as u64) as i64);
        assert_eq!(parse_luid_from_name(&name), Some(expected));
        assert_eq!(wmi_gpu::parse_luid_from_name(&name), Some(expected));
    }
}

/// The string-slicing reading of an instance name that the LUID parser follows.
fn sliced_u32_reading(name: &str) -> Option<i64> {
    let idx = name.find("luid_")?;
    let rest = &name[idx + 5..];
    let mut parts = rest.splitn(3, '_');
    let high_str = parts.next()?.trim_start_matches("0x");
    let low_str = parts.next()?.trim_start_matches("0x");
    let high = u32::from_str_radix(high_str, 16).ok()?;
    let low = u32::from_str_radix(low_str, 16).ok()?;
    Some((((high as u64) << 32) | (low as u64)) as i64)
}

/// The signed reading that the WMI parser follows.
fn sliced_i64_reading(name: &str) -> Option<i64> {
    let idx = name.find("luid_")?;
    let rest = &name[idx + 5..];
    let mut parts = rest.splitn(3, '_');
    let high = parts.next()?;
    let low = parts.next()?;
    let high = i64::from_str_radix(high.trim_start_matches("0x"), 16).ok()?;
    let low = i64::from_str_radix(low.trim_start_matches("0x"), 16).ok()?;
    Some((high << 32) | (low & 0xFFFFFFFF))
}

#[test]
fn parsers_match_sliced_readings_on_generated_names() {
    let pieces = [
        "luid_", "_", "0x", "0", "1", "f", "F", "a", "9", "+", "-", "x", "g", "ü", "l", "u", "id",
        "FFFFFFFF", "100000000", "7FFFFFFFFFFFFFFF", "8000000000000000", "phys", "",
    ];
    let mut seed: u64 = 0x1234_5678_9ABC_DEF1;
    for _ in 0..50000 {
        let mut name = String::new();
        seed ^= seed << 13;
        seed ^= seed >> 7;
        seed ^= seed << 17;
        let n = (seed % 9) as usize + 1;
        let mut s = seed;
        for _ in 0..n {
            name.push_str(pieces[(s % pieces.len() as u64) as usize]);
            s /= pieces.len() as u64;
            if s == 0 {
                s = seed.rotate_left(17);
            }
        }
        assert_eq!(parse_luid_from_name(&name), sliced_u32_reading(&name), "name = {:?}", name);
        assert_eq!(wmi_gpu::parse_luid_from_name(&name), sliced_i64_reading(&name), "name = {:?}", name);
    }
}

#[test]
fn wmi_reader_agrees_wherever_unsigned_reads() {
    for name in [
        "luid_+1_0x0x2_x",
        "pid_7_luid_FFFFFFFF_0_phys",
        "luid_00000000000000000001_a",
        "a_luid_0x12345678_0x9abcdef0",
    ] {
        let unsigned = parse_luid_from_name(name);
        assert!(unsigned.is_some(), "{}", name);
        assert_eq!(wmi_gpu::parse_luid_from_name(name), unsigned, "{}", name);
    }
}

#[test]
fn process_prefix_does_not_change_the_luid() {
    for t in ["luid_0x0_0xD1B4_phys_0", "x_luid_1_2", "nothing", "luid_-1_2_p"] {
        for pid in [0u32, 7, 123456] {
            let name = format!("pid_{}_{}", pid, t);
            assert_eq!(parse_luid_from_name(&name), parse_luid_from_name(t));
            assert_eq!(wmi_gpu::parse_luid_from_name(&name), wmi_gpu::parse_luid_from_name(t));
        }
    }
}
