use tikv::config::{DurationValue, ReadableDuration, ReadableSize, KIB, MIB};
use tikv::mysql::{check_fsp, InvalidFsp};

#[test]
fn test_readable_size() {
    let s = ReadableSize::kb(2);
    assert_eq!(s.0, 2048);
    assert_eq!(s.as_mb(), 0);
    let s = ReadableSize::mb(2);
    assert_eq!(s.0, 2 * 1024 * 1024);
    assert_eq!(s.as_mb(), 2);
    let s = ReadableSize::gb(2);
    assert_eq!(s.0, 2 * 1024 * 1024 * 1024);
    assert_eq!(s.as_mb(), 2048);

    assert_eq!((ReadableSize::mb(2) / 2).0, MIB);
    assert_eq!((ReadableSize::mb(1) / 2).0, 512 * KIB);
    assert_eq!(ReadableSize::mb(2) / ReadableSize::kb(1), 2048);
}

#[test]
fn test_duration_construction() {
    let mut dur = ReadableDuration::micros(2_010_010);
    assert_eq!(dur.0, DurationValue::new(2, 10_010_000));
    assert_eq!(dur.as_secs(), 2);
    let secs_f64 = dur.0.secs as f64 + dur.0.nanos as f64 / 1e9;
    assert!((secs_f64 - 2.010_010).abs() < f64::EPSILON);
    assert_eq!(dur.as_millis(), 2_010);
    dur = ReadableDuration::millis(1001);
    assert_eq!(dur.0, DurationValue::new(1, 1_000_000));
    assert_eq!(dur.as_secs(), 1);
    let secs_f64 = dur.0.secs as f64 + dur.0.nanos as f64 / 1e9;
    assert!((secs_f64 - 1.001).abs() < f64::EPSILON);
    assert_eq!(dur.as_millis(), 1001);
    dur = ReadableDuration::secs(1);
    assert_eq!(dur.0, DurationValue::new(1, 0));
    assert_eq!(dur.as_secs(), 1);
    assert_eq!(dur.as_millis(), 1000);
    dur = ReadableDuration::minutes(2);
    assert_eq!(dur.0, DurationValue::new(2 * 60, 0));
    assert_eq!(dur.as_secs(), 120);
    assert_eq!(dur.as_millis(), 120000);
    dur = ReadableDuration::hours(2);
    assert_eq!(dur.0, DurationValue::new(2 * 3600, 0));
    assert_eq!(dur.as_secs(), 7200);
    assert_eq!(dur.as_millis(), 7200000);
}

#[test]
fn test_readable_size_arithmetic() {
    assert_eq!((ReadableSize::kb(4) - ReadableSize::kb(1)).0, 3 * KIB);
    assert_eq!((ReadableSize::kb(3) * 4).0, 12 * KIB);
}

#[test]
fn test_duration_units() {
    assert_eq!(ReadableDuration::days(1).as_secs(), 86_400);
    assert_eq!(ReadableDuration::micros(999).as_micros(), 999);
    assert!(ReadableDuration::secs(0).is_zero());
    assert!(!ReadableDuration::micros(1).is_zero());
}

#[test]
fn test_check_fsp() {
    assert_eq!(check_fsp(-1), Ok(0));
    assert_eq!(check_fsp(0), Ok(0));
    assert_eq!(check_fsp(6), Ok(6));
    assert_eq!(check_fsp(3), Ok(3));
    assert_eq!(check_fsp(7), Err(InvalidFsp { fsp: 7 }));
    assert_eq!(check_fsp(-2), Err(InvalidFsp { fsp: -2 }));
}
