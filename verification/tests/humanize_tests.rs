use sysmon::processes::humanize_bytes;

/// The float computation that the byte labels follow.
fn float_label(bytes: u64) -> String {
    const UNITS: [&str; 5] = ["B", "KB", "MB", "GB", "TB"];
    let mut size = bytes as f64;
    let mut unit_index = 0;
    while size >= 1024.0 && unit_index < UNITS.len() - 1 {
        size /= 1024.0;
        unit_index += 1;
    }
    if unit_index == 0 {
        format!("{} {}", size as u64, UNITS[unit_index])
    } else {
        format!("{:.1} {}", size, UNITS[unit_index])
    }
}

#[test]
fn small_counts_are_exact_bytes() {
    assert_eq!(humanize_bytes(0), "0 B");
    assert_eq!(humanize_bytes(1), "1 B");
    assert_eq!(humanize_bytes(512), "512 B");
    assert_eq!(humanize_bytes(1023), "1023 B");
}

#[test]
fn unit_boundaries() {
    assert_eq!(humanize_bytes(1024), "1.0 KB");
    assert_eq!(humanize_bytes(1536), "1.5 KB");
    assert_eq!(humanize_bytes(1024 * 1024), "1.0 MB");
    assert_eq!(humanize_bytes(1024 * 1024 * 1024), "1.0 GB");
    assert_eq!(humanize_bytes(1u64 << 40), "1.0 TB");
    assert_eq!(humanize_bytes(1024 * 1024 - 1), "1024.0 KB");
}

#[test]
fn ties_round_to_even() {
    // 1280 / 1024 = 1.25 exactly; 1.35 and 1.45 are not exact halves.
    assert_eq!(humanize_bytes(1280), float_label(1280));
    assert_eq!(humanize_bytes(1280), "1.2 KB");
    assert_eq!(humanize_bytes(1024 + 384), "1.4 KB");
    assert_eq!(humanize_bytes(3 * 1024 + 256 + 512), float_label(3 * 1024 + 768));
}

#[test]
fn terabytes_keep_growing() {
    assert_eq!(humanize_bytes(u64::MAX), "16777216.0 TB");
    assert_eq!(humanize_bytes(u64::MAX), float_label(u64::MAX));
}

#[test]
fn matches_float_labels_across_the_range() {
    let mut values: Vec<u64> = Vec::new();
    for shift in 0..64u32 {
        let base = 1u64 << shift;
        for delta in [0u64, 1, 2, 3, 5, 51, 52, 102, 103, 511, 512, 513] {
            values.push(base.wrapping_add(delta));
            values.push(base.wrapping_sub(delta));
            values.push(base.wrapping_mul(3).wrapping_add(delta));
        }
    }
    for k in 0..5u32 {
        let unit = 1u64 << (10 * k);
        for tenth in 0..200u64 {
            // exact halves of a tenth: (2t + 1) / 20 units
            values.push(((2 * tenth + 1) * unit) / 20);
            values.push(tenth * unit / 10 + unit);
        }
    }
    let mut x: u64 = 0x9E37_79B9_7F4A_7C15;
    for _ in 0..20000 {
        x ^= x << 13;
        x ^= x >> 7;
        x ^= x << 17;
        values.push(x >> (x % 64));
    }
    for v in values {
        assert_eq!(humanize_bytes(v), float_label(v), "bytes = {}", v);
    }
}
