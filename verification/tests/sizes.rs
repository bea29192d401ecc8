use gim::output::fmt::{format_size, format_size_compact};

/// The size text computed with doubles, as the command output always did.
fn size_by_float(bytes: i64) -> String {
    let kb = 1024.0f64;
    let mb = kb * 1024.0;
    let gb = mb * 1024.0;
    let tb = gb * 1024.0;
    let b = bytes as f64;
    if b >= tb {
        format!("{:.1} TB", b / tb)
    } else if b >= gb {
        format!("{:.1} GB", b / gb)
    } else if b >= mb {
        format!("{:.1} MB", b / mb)
    } else if b >= kb {
        format!("{:.1} KB", b / kb)
    } else {
        format!("{} B", b as i64)
    }
}

fn compact_by_float(bytes: i64) -> String {
    let kb = 1024.0f64;
    let mb = kb * 1024.0;
    let gb = mb * 1024.0;
    let b = bytes.unsigned_abs() as f64;
    let (value, unit) = if b >= gb {
        (b / gb, "GB")
    } else if b >= mb {
        (b / mb, "MB")
    } else if b >= kb {
        (b / kb, "KB")
    } else {
        (b, "B")
    };
    let sign = if bytes < 0 { "-" } else { "+" };
    if unit == "B" {
        format!("{}{}B", sign, b as i64)
    } else {
        format!("{}{:.0}{}", sign, value, unit)
    }
}

fn samples() -> Vec<i64> {
    let mut v: Vec<i64> = vec![
        0,
        1,
        -1,
        512,
        1023,
        1024,
        -1024,
        1280,
        1331,
        1536,
        2560,
        3584,
        10188,
        1_048_575,
        1_048_576,
        1_572_864,
        5_000_000_000,
        (1i64 << 38) * 5,
        (1i64 << 40) - 1,
        1i64 << 40,
        (1i64 << 53) + 1,
        (1i64 << 53) + 3,
        (1i64 << 54) + 2,
        (1i64 << 54) + 6,
        i64::MAX,
        i64::MIN,
        i64::MIN + 1,
        -((1i64 << 53) + 1),
        -((1i64 << 53) + 3),
        -5_000_000_000,
    ];
    let mut x: u64 = 0x9e37_79b9_7f4a_7c15;
    for _ in 0..2000 {
        x ^= x << 13;
        x ^= x >> 7;
        x ^= x << 17;
        let shift = (x % 64) as u32;
        v.push((x >> shift) as i64);
        v.push(-((x >> (shift | 1)) as i64));
    }
    v
}

#[test]
fn sizes_read_as_people_expect() {
    assert_eq!(format_size(0), "0 B");
    assert_eq!(format_size(512), "512 B");
    assert_eq!(format_size(1536), "1.5 KB");
    assert_eq!(format_size(1_048_576), "1.0 MB");
    assert_eq!(format_size(-2048), "-2048 B");
    assert_eq!(format_size_compact(1536), "+2KB");
    assert_eq!(format_size_compact(-3 * 1_048_576), "-3MB");
    assert_eq!(format_size_compact(0), "+0B");
}

#[test]
fn size_text_rounds_ties_to_even() {
    // 1.25 KB and 1.25 TB sit exactly between two tenths.
    assert_eq!(format_size(1280), size_by_float(1280));
    assert_eq!(format_size((1i64 << 38) * 5), size_by_float((1i64 << 38) * 5));
    // 2.5 KB sits exactly between two whole numbers.
    assert_eq!(format_size_compact(2560), compact_by_float(2560));
}

#[test]
fn size_text_matches_double_formatting() {
    for b in samples() {
        assert_eq!(format_size(b), size_by_float(b), "format_size({b})");
        assert_eq!(format_size_compact(b), compact_by_float(b), "format_size_compact({b})");
    }
}
