use gim::output::fmt::format_timestamp;
use chrono::{Datelike, Timelike};

fn by_chrono(ms: i64) -> String {
    chrono::DateTime::<chrono::Utc>::from_timestamp(ms / 1000, 0)
        .unwrap_or_default()
        .format("%Y-%m-%d %H:%M:%S")
        .to_string()
}

#[test]
fn timestamps_match_the_calendar() {
    let mut samples: Vec<i64> = vec![
        0,
        999,
        -1,
        -1000,
        -1001,
        86_399_999,
        86_400_000,
        951_782_400_000,   // 2000-02-29
        951_868_800_000,   // 2000-03-01
        4_107_542_400_000, // 2100-03-01
        -2_208_988_800_000,
        -62_135_596_800_000, // 0001-01-01
        -62_167_219_200_000, // 0000-01-01
        253_402_300_799_000, // 9999-12-31 23:59:59
        253_402_300_800_000, // 10000-01-01
        i64::MAX,
        i64::MIN,
    ];
    let mut x: u64 = 0x2545_f491_4f6c_dd1d;
    for _ in 0..20000 {
        x ^= x << 13;
        x ^= x >> 7;
        x ^= x << 17;
        let v = (x % 2_000_000_000_000_000) as i64 - 1_000_000_000_000_000;
        samples.push(v);
        samples.push(v / 1000);
    }
    for ms in samples {
        assert_eq!(format_timestamp(ms), by_chrono(ms), "format_timestamp({ms})");
    }
}

/// The calendar arithmetic the library states of chrono, written out for
/// a comparison with chrono itself.
fn civil(secs: i64) -> (i64, i64, i64, i64, i64, i64) {
    let days = secs.div_euclid(86400);
    let sod = secs.rem_euclid(86400);
    let z = days + 719468;
    let era = z.div_euclid(146097);
    let doe = z - era * 146097;
    let yoe = (doe - doe / 1460 + doe / 36524 - doe / 146096) / 365;
    let doy = doe - (365 * yoe + yoe / 4 - yoe / 100);
    let mp = (5 * doy + 2) / 153;
    let d = doy - (153 * mp + 2) / 5 + 1;
    let m = if mp < 10 { mp + 3 } else { mp - 9 };
    let y = yoe + era * 400 + if m <= 2 { 1 } else { 0 };
    (y, m, d, sod / 3600, (sod % 3600) / 60, sod % 60)
}

#[test]
fn stated_calendar_agrees_with_chrono() {
    let mut x: u64 = 0x9e37_79b9_7f4a_7c15;
    let mut samples: Vec<i64> = vec![0, -1, 86399, 86400, -86400, -86401, 951_782_400, -62_135_596_800, 1_000_000_000_000, -1_000_000_000_000];
    for _ in 0..50000 {
        x ^= x << 13;
        x ^= x >> 7;
        x ^= x << 17;
        samples.push((x % 2_000_000_000_001) as i64 - 1_000_000_000_000);
        samples.push((x % 200_000_000_001) as i64 - 100_000_000_000);
    }
    for s in samples {
        let d = chrono::DateTime::<chrono::Utc>::from_timestamp(s, 0).unwrap();
        let want = (d.year() as i64, d.month() as i64, d.day() as i64, d.hour() as i64, d.minute() as i64, d.second() as i64);
        assert_eq!(civil(s), want, "secs {s}");
    }
}
