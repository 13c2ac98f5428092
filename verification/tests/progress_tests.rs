use shipfe::progress::{copy_step, format_bytes, progress_line, progress_start_line};

fn reference(bytes: u64) -> String {
    const KIB: f64 = 1024.0;
    const MIB: f64 = KIB * 1024.0;
    if bytes as f64 >= MIB {
        format!("{:.2} MiB", bytes as f64 / MIB)
    } else if bytes as f64 >= KIB {
        format!("{:.2} KiB", bytes as f64 / KIB)
    } else {
        format!("{} B", bytes)
    }
}

#[test]
fn format_bytes_examples() {
    assert_eq!(format_bytes(0), "0 B");
    assert_eq!(format_bytes(1023), "1023 B");
    assert_eq!(format_bytes(1024), "1.00 KiB");
    assert_eq!(format_bytes(1536), "1.50 KiB");
    assert_eq!(format_bytes(1048576), "1.00 MiB");
    assert_eq!(format_bytes(5 * 1048576 + 524288), "5.50 MiB");
}

#[test]
fn format_bytes_rounds_ties_to_even() {
    // 1152 bytes are 1.125 KiB exactly.
    assert_eq!(format_bytes(1152), "1.12 KiB");
    assert_eq!(format_bytes(1152), reference(1152));
    // 1.375 KiB rounds up to the even digit.
    assert_eq!(format_bytes(1408), "1.38 KiB");
}

#[test]
fn format_bytes_agrees_with_float_formatting_small() {
    for b in 0u64..300_000 {
        assert_eq!(format_bytes(b), reference(b), "bytes {}", b);
    }
}

#[test]
fn format_bytes_agrees_with_float_formatting_large() {
    let mut samples: Vec<u64> = vec![u64::MAX, u64::MAX - 1, 1 << 53, (1 << 53) + 1, (1 << 53) - 1];
    for k in 20..64 {
        let p = 1u64 << k;
        for d in [0u64, 1, 2, 3, 5, 1023, 1024, 1025, 5242, 10485, 65535] {
            samples.push(p.wrapping_add(d));
            samples.push(p.wrapping_sub(d));
            samples.push(p.wrapping_add(p / 2).wrapping_add(d));
        }
    }
    let mut x: u64 = 0x9e37_79b9_7f4a_7c15;
    for _ in 0..20000 {
        x ^= x << 13;
        x ^= x >> 7;
        x ^= x << 17;
        samples.push(x);
        samples.push(x >> (x % 60));
    }
    for b in samples {
        assert_eq!(format_bytes(b), reference(b), "bytes {}", b);
    }
}

#[test]
fn progress_lines() {
    assert_eq!(progress_start_line(0), None);
    assert_eq!(
        progress_start_line(2048),
        Some("upload progress: 0 B / 2.00 KiB (0.0%)".to_string())
    );
    assert_eq!(
        progress_line(1024, 2048, "50.0"),
        "upload progress: 1.00 KiB / 2.00 KiB (50.0%)"
    );
}

#[test]
fn copy_steps() {
    assert_eq!(copy_step(100, 0, 1000, true), None);
    assert_eq!(copy_step(100, 50, 1000, true), Some((150, true)));
    assert_eq!(copy_step(100, 50, 1000, false), Some((150, false)));
    assert_eq!(copy_step(0, 50, 0, true), Some((50, false)));
}
