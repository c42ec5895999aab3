use hostdash::format::format_bytes;

fn reference(bytes: u64) -> String {
    let kb: u64 = 1024;
    let mb: u64 = 1024 * kb;
    let gb: u64 = 1024 * mb;
    if bytes >= gb {
        format!("{:.2} GB", bytes as f64 / gb as f64)
    } else if bytes >= mb {
        format!("{:.2} MB", bytes as f64 / mb as f64)
    } else if bytes >= kb {
        format!("{:.2} KB", bytes as f64 / kb as f64)
    } else {
        format!("{} B", bytes)
    }
}

#[test]
fn formats_zero_bytes() {
    assert_eq!(format_bytes(0), "0 B");
}

#[test]
fn formats_kilobytes_with_two_decimals() {
    assert_eq!(format_bytes(1536), "1.50 KB");
}

#[test]
fn formats_one_gigabyte() {
    assert_eq!(format_bytes(1_073_741_824), "1.00 GB");
}

#[test]
fn formats_unit_thresholds() {
    assert_eq!(format_bytes(1), "1 B");
    assert_eq!(format_bytes(1023), "1023 B");
    assert_eq!(format_bytes(1024), "1.00 KB");
    assert_eq!(format_bytes(1_048_575), "1024.00 KB");
    assert_eq!(format_bytes(1_048_576), "1.00 MB");
    assert_eq!(format_bytes(1_073_741_823), "1024.00 MB");
    assert_eq!(format_bytes(5 * 1_073_741_824 + 536_870_912), "5.50 GB");
}

#[test]
fn rounds_halfway_values_to_even() {
    // 1152 / 1024 = 1.125 and 1408 / 1024 = 1.375, both halfway.
    assert_eq!(format_bytes(1152), "1.12 KB");
    assert_eq!(format_bytes(1408), "1.38 KB");
    assert_eq!(format_bytes(1152), reference(1152));
    assert_eq!(format_bytes(1408), reference(1408));
}

#[test]
fn formats_largest_count() {
    assert_eq!(format_bytes(u64::MAX), "17179869184.00 GB");
    assert_eq!(format_bytes(u64::MAX), reference(u64::MAX));
}

#[test]
fn agrees_with_floating_point_on_small_counts() {
    let mut bytes: u64 = 0;
    while bytes < 300_000 {
        assert_eq!(format_bytes(bytes), reference(bytes), "bytes = {}", bytes);
        bytes += 1;
    }
}

#[test]
fn agrees_with_floating_point_on_scattered_counts() {
    let mut state: u64 = 0x9E37_79B9_7F4A_7C15;
    let mut round: u32 = 0;
    while round < 200_000 {
        state = state.wrapping_mul(6364136223846793005).wrapping_add(1442695040888963407);
        let shift: u32 = (state >> 58) as u32;
        let bytes: u64 = state >> shift;
        assert_eq!(format_bytes(bytes), reference(bytes), "bytes = {}", bytes);
        round += 1;
    }
}

#[test]
fn agrees_with_floating_point_near_rounding_edges() {
    let mut exponent: u32 = 10;
    while exponent < 64 {
        let base: u64 = 1u64 << exponent;
        let mut offset: u64 = 0;
        while offset < 5000 {
            let low: u64 = base - 1 - offset;
            let high: u64 = base.wrapping_add(offset);
            assert_eq!(format_bytes(low), reference(low), "bytes = {}", low);
            if high >= base {
                assert_eq!(format_bytes(high), reference(high), "bytes = {}", high);
            }
            offset += 1;
        }
        exponent += 1;
    }
    let mut below: u64 = 0;
    while below < 5000 {
        let bytes: u64 = u64::MAX - below;
        assert_eq!(format_bytes(bytes), reference(bytes), "bytes = {}", bytes);
        below += 1;
    }
}
