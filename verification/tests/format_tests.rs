use lsal::format::{format_mode, format_size, format_time};

#[test]
fn mode_of_directory() {
    assert_eq!(format_mode(0o755, true), "drwxr-xr-x");
}

#[test]
fn mode_of_file() {
    assert_eq!(format_mode(0o644, false), "-rw-r--r--");
}

#[test]
fn mode_ignores_file_type_bits() {
    assert_eq!(format_mode(0o100_600, false), "-rw-------");
    assert_eq!(format_mode(0o040_777, true), "drwxrwxrwx");
    assert_eq!(format_mode(0, false), "----------");
}

#[test]
fn mode_each_bit_alone() {
    let letters = ['r', 'w', 'x', 'r', 'w', 'x', 'r', 'w', 'x'];
    for k in 0..9 {
        let bit = 0o400u32 >> k;
        let s: Vec<char> = format_mode(bit, false).chars().collect();
        assert_eq!(s.len(), 10);
        for (i, c) in s.iter().enumerate().skip(1) {
            if i - 1 == k {
                assert_eq!(*c, letters[k]);
            } else {
                assert_eq!(*c, '-');
            }
        }
    }
}

#[test]
fn time_at_epoch() {
    assert_eq!(format_time(0), "1970-01-01 00:00");
}

#[test]
fn time_before_epoch_is_epoch() {
    assert_eq!(format_time(-5), "1970-01-01 00:00");
    assert_eq!(format_time(i64::MIN), "1970-01-01 00:00");
}

#[test]
fn time_end_of_first_day() {
    assert_eq!(format_time(86399), "1970-01-01 23:59");
}

#[test]
fn time_leap_days() {
    assert_eq!(format_time(951_782_400), "2000-02-29 00:00");
    assert_eq!(format_time(1_709_210_096), "2024-02-29 12:34");
}

#[test]
fn time_known_instants() {
    assert_eq!(format_time(1_234_567_890), "2009-02-13 23:31");
    assert_eq!(format_time(1_700_000_000), "2023-11-14 22:13");
    assert_eq!(format_time(4_102_444_800), "2100-01-01 00:00");
    assert_eq!(format_time(253_402_300_799), "9999-12-31 23:59");
}

#[test]
fn time_far_future() {
    assert_eq!(format_time(i64::MAX), "292277026596-12-04 15:30");
}

/// Day count of a date by counting whole years and months.
fn days_from_civil_by_counting(y: i64, m: i64, d: i64) -> i64 {
    let leap = |y: i64| (y % 4 == 0 && y % 100 != 0) || y % 400 == 0;
    let mut days = 0;
    for yy in 1970..y {
        days += if leap(yy) { 366 } else { 365 };
    }
    let lens = [31, if leap(y) { 29 } else { 28 }, 31, 30, 31, 30, 31, 31, 30, 31, 30, 31];
    for mm in 1..m {
        days += lens[(mm - 1) as usize];
    }
    days + d - 1
}

#[test]
fn time_agrees_with_day_counting() {
    let mut day: i64 = 0;
    while day < 200_000 {
        let s = format_time(day * 86400 + 3723);
        let y: i64 = s[0..s.len() - 12].parse().unwrap();
        let rest = &s[s.len() - 11..];
        let m: i64 = rest[0..2].parse().unwrap();
        let d: i64 = rest[3..5].parse().unwrap();
        assert_eq!(&rest[5..], " 01:02");
        assert_eq!(days_from_civil_by_counting(y, m, d), day);
        day += 37;
    }
}

/// The byte count shown the way a double-precision computation shows it.
fn size_by_doubles(size: u64) -> String {
    let units = ["B", "K", "M", "G", "T"];
    let mut sz = size as f64;
    let mut unit = 0;
    while sz >= 1024.0 && unit < units.len() - 1 {
        sz /= 1024.0;
        unit += 1;
    }
    if unit == 0 {
        format!("{size}{}", units[unit])
    } else {
        format!("{sz:.1}{}", units[unit])
    }
}

#[test]
fn size_in_bytes() {
    assert_eq!(format_size(0), "0B");
    assert_eq!(format_size(512), "512B");
    assert_eq!(format_size(1023), "1023B");
}

#[test]
fn size_in_larger_units() {
    assert_eq!(format_size(1024), "1.0K");
    assert_eq!(format_size(1536), "1.5K");
    assert_eq!(format_size(1_048_576), "1.0M");
    assert_eq!(format_size(3 * 1024 * 1024 * 1024), "3.0G");
    assert_eq!(format_size(1u64 << 40), "1.0T");
    assert_eq!(format_size(u64::MAX), "16777216.0T");
}

#[test]
fn size_rounds_ties_to_even() {
    assert_eq!(format_size(1280), "1.2K");
    assert_eq!(format_size(1126), "1.1K");
    assert_eq!(format_size(1_048_575), "1024.0K");
}

#[test]
fn size_agrees_with_doubles() {
    let mut samples: Vec<u64> = Vec::new();
    for k in 0..64u32 {
        let p = 1u64 << k;
        for d in [0u64, 1, 2, 3, 51, 52, 100, 1023, 1024, 1025] {
            samples.push(p.wrapping_add(d));
            samples.push(p.wrapping_sub(d));
            samples.push(p.wrapping_add(p / 2).wrapping_add(d));
            samples.push(p.wrapping_add(p / 4).wrapping_sub(d));
        }
    }
    let mut x: u64 = 0x9E37_79B9_7F4A_7C15;
    for _ in 0..20000 {
        x ^= x << 13;
        x ^= x >> 7;
        x ^= x << 17;
        samples.push(x >> (x % 64));
    }
    for n in 0..5000u64 {
        samples.push(n * 256);
    }
    for s in samples {
        assert_eq!(format_size(s), size_by_doubles(s), "size {s}");
    }
}

#[test]
fn later_times_give_later_or_equal_text() {
    let mut samples: Vec<i64> = vec![-1, 0, 59, 60, 3599, 3600, 86399, 86400, 951_782_399, 951_782_400];
    let mut x: u64 = 0x2545_F491_4F6C_DD1D;
    for _ in 0..5000 {
        x ^= x << 13;
        x ^= x >> 7;
        x ^= x << 17;
        samples.push((x % 253_402_300_800) as i64);
    }
    samples.push(253_402_300_799);
    samples.sort();
    for w in samples.windows(2) {
        assert!(format_time(w[0]) <= format_time(w[1]), "{} {}", w[0], w[1]);
    }
}
