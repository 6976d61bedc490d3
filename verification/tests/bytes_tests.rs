use imagegen::bytes::human_bytes;

/// The same rendering done with floating point.
fn float_rendering(bytes: usize) -> String {
    const UNITS: [&str; 4] = ["B", "KB", "MB", "GB"];
    let mut value = bytes as f64;
    let mut unit = 0;
    while value >= 1024.0 && unit < UNITS.len() - 1 {
        value /= 1024.0;
        unit += 1;
    }
    if unit == 0 {
        format!("{bytes} B")
    } else {
        format!("{value:.1} {}", UNITS[unit])
    }
}

#[test]
fn human_bytes_formats() {
    assert_eq!(human_bytes(512), "512 B");
    assert_eq!(human_bytes(2048), "2.0 KB");
    assert_eq!(human_bytes(3 * 1024 * 1024), "3.0 MB");
}

#[test]
fn human_bytes_edges() {
    assert_eq!(human_bytes(0), "0 B");
    assert_eq!(human_bytes(1023), "1023 B");
    assert_eq!(human_bytes(1024), "1.0 KB");
    // 1.25 KB and 1.75 KB lie halfway between tenths: ties go to the even digit
    assert_eq!(human_bytes(1280), "1.2 KB");
    assert_eq!(human_bytes(1792), "1.8 KB");
    assert_eq!(human_bytes(1048575), "1024.0 KB");
    assert_eq!(human_bytes(5 * 1024 * 1024 * 1024), "5.0 GB");
}

#[test]
fn human_bytes_agrees_with_float_formatting() {
    let mut samples: Vec<usize> = (0..5000).collect();
    samples.extend((0..4000usize).map(|i| 1024 + i * 64));
    samples.extend((0..3000usize).map(|i| (1 << 20) + i * 52_429));
    samples.extend((0..64u32).map(|k| 1usize << k));
    samples.extend((0..64u32).flat_map(|k| {
        let p = 1usize << k;
        [p.wrapping_sub(1), p + 1, p + p / 2, p + p / 4]
    }));
    let big: usize = 1 << 53;
    samples.extend((0..200usize).map(|i| big + i));
    samples.extend((0..200usize).map(|i| usize::MAX - i));
    samples.extend((0..200usize).map(|i| (big << 5) + i * 31));
    for b in samples {
        assert_eq!(human_bytes(b), float_rendering(b), "bytes = {b}");
    }
}
