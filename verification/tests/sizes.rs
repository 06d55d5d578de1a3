use kukufm_dl::utils::human_readable_size;

fn reference(size: u64) -> String {
    const KB: u64 = 1024;
    const MB: u64 = KB * 1024;
    const GB: u64 = MB * 1024;
    if size >= GB {
        format!("{:.2} GB", size as f64 / GB as f64)
    } else if size >= MB {
        format!("{:.2} MB", size as f64 / MB as f64)
    } else if size >= KB {
        format!("{:.2} KB", size as f64 / KB as f64)
    } else {
        format!("{} B", size)
    }
}

#[test]
fn bytes_below_one_kib() {
    assert_eq!(human_readable_size(0), "0 B");
    assert_eq!(human_readable_size(1), "1 B");
    assert_eq!(human_readable_size(1023), "1023 B");
}

#[test]
fn unit_thresholds() {
    assert_eq!(human_readable_size(1024), "1.00 KB");
    assert_eq!(human_readable_size(1536), "1.50 KB");
    assert_eq!(human_readable_size(1048576), "1.00 MB");
    assert_eq!(human_readable_size(1073741824), "1.00 GB");
    assert_eq!(human_readable_size(1048575), "1024.00 KB");
}

#[test]
fn ties_round_like_float_formatting() {
    for size in [1152u64, 1408, 1664, 1920, 3200, 5 * 1024 * 1024 + 5 * 1024 * 1024 / 200] {
        assert_eq!(human_readable_size(size), reference(size), "size {}", size);
    }
}

#[test]
fn agrees_with_float_formatting_on_many_sizes() {
    let mut x: u64 = 0x9e37_79b9_7f4a_7c15;
    for _ in 0..20000 {
        x ^= x << 13;
        x ^= x >> 7;
        x ^= x << 17;
        let shift = (x % 64) as u32;
        let size = x >> shift;
        assert_eq!(human_readable_size(size), reference(size), "size {}", size);
    }
    for size in 0..5000u64 {
        assert_eq!(human_readable_size(size), reference(size));
    }
}

#[test]
fn largest_sizes() {
    for size in [u64::MAX, u64::MAX - 1, 1u64 << 63, (1u64 << 53) + 1, (1u64 << 53) + 3, (1u64 << 60) + (1 << 7)] {
        assert_eq!(human_readable_size(size), reference(size), "size {}", size);
    }
}
