use pfm::sizes::format_size;

fn by_float(bytes: i64) -> String {
    if bytes < 1024 {
        format!("{} B", bytes)
    } else if bytes < 1024 * 1024 {
        format!("{:.1} KB", bytes as f64 / 1024.0)
    } else if bytes < 1024 * 1024 * 1024 {
        format!("{:.1} MB", bytes as f64 / (1024.0 * 1024.0))
    } else {
        format!("{:.2} GB", bytes as f64 / (1024.0 * 1024.0 * 1024.0))
    }
}

#[test]
fn sizes_in_each_unit() {
    assert_eq!(format_size(0), "0 B");
    assert_eq!(format_size(512), "512 B");
    assert_eq!(format_size(1023), "1023 B");
    assert_eq!(format_size(-5), "-5 B");
    assert_eq!(format_size(1024), "1.0 KB");
    assert_eq!(format_size(1536), "1.5 KB");
    assert_eq!(format_size(1024 * 1024), "1.0 MB");
    assert_eq!(format_size(5 * 1024 * 1024 + 300 * 1024), "5.3 MB");
    assert_eq!(format_size(1024 * 1024 * 1024), "1.00 GB");
    assert_eq!(format_size(3 * 1024 * 1024 * 1024 + 512 * 1024 * 1024), "3.50 GB");
    assert_eq!(format_size(1024 * 1024 - 1), "1024.0 KB");
}

#[test]
fn exact_halves_round_to_even() {
    // 1280 bytes are exactly 1.25 KB; 1.25 MB and 1.125 GB likewise
    assert_eq!(format_size(1280), by_float(1280));
    assert_eq!(format_size(1310720), by_float(1310720));
    assert_eq!(format_size(1207959552), by_float(1207959552));
    assert_eq!(format_size(3840), by_float(3840));
}

#[test]
fn agrees_with_float_formatting() {
    let mut samples: Vec<i64> = vec![i64::MIN, -1, 1, 1000, 1025, 1126, 1127, 10239, 10240, 10241];
    let mut x: i64 = 1;
    while x < i64::MAX / 3 {
        samples.push(x);
        samples.push(x + 1);
        samples.push(x - 1);
        samples.push(x + x / 2);
        samples.push(x + x / 20);
        x = x * 3 + 7;
    }
    let mut seed: u64 = 0x9e3779b97f4a7c15;
    for _ in 0..20000 {
        seed ^= seed << 13;
        seed ^= seed >> 7;
        seed ^= seed << 17;
        let shift = seed % 63;
        samples.push(((seed >> 1) >> shift) as i64);
    }
    for k in 0..64u32 {
        let base: i64 = 1i64.checked_shl(k).unwrap_or(i64::MAX);
        if base > 0 {
            samples.push(base);
            samples.push(base.saturating_add(base / 2));
        }
    }
    samples.push(i64::MAX);
    samples.push(i64::MAX - 511);
    samples.push(i64::MAX - 512);
    samples.push((1i64 << 53) + 1);
    samples.push((1i64 << 54) + 2);
    samples.push((1i64 << 54) + 6);
    for b in samples {
        assert_eq!(format_size(b), by_float(b), "bytes = {}", b);
    }
}
