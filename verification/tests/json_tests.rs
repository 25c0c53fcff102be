use std::cmp::Ordering;

use tikv::json::{Duration, Json, Time, TimeType};

#[test]
fn test_cmp_json_between_json_type() {
    let cmp = [
        (
            Json::from_time(Time::new(1998, 6, 13, 12, 13, 14, 0, TimeType::DateTime)),
            Json::from_time(Time::new(1998, 6, 14, 13, 14, 15, 0, TimeType::DateTime)),
            Ordering::Less,
        ),
        (
            Json::from_time(Time::new(1998, 6, 13, 12, 13, 14, 0, TimeType::DateTime)),
            Json::from_time(Time::new(1998, 6, 12, 13, 14, 15, 0, TimeType::DateTime)),
            Ordering::Greater,
        ),
        (
            // DateTime is always greater than Date
            Json::from_time(Time::new(1998, 6, 13, 12, 13, 14, 0, TimeType::DateTime)),
            Json::from_time(Time::new(1998, 6, 14, 0, 0, 0, 0, TimeType::Date)),
            Ordering::Greater,
        ),
        (
            Json::from_duration(Duration::new_hms(12, 13, 14)),
            Json::from_duration(Duration::new_hms(12, 13, 16)),
            Ordering::Less,
        ),
        (
            Json::from_duration(Duration::new_hms(12, 13, 16)),
            Json::from_duration(Duration::new_hms(12, 13, 14)),
            Ordering::Greater,
        ),
        (
            // Time is always greater than Date
            Json::from_duration(Duration::new_hms(12, 13, 16)),
            Json::from_time(Time::new(1998, 6, 12, 0, 0, 0, 0, TimeType::Date)),
            Ordering::Greater,
        ),
        (
            // Time is always less than DateTime
            Json::from_duration(Duration::new_hms(12, 13, 16)),
            Json::from_time(Time::new(1998, 6, 12, 11, 11, 11, 0, TimeType::DateTime)),
            Ordering::Less,
        ),
    ];

    for (l, r, result) in cmp {
        assert_eq!(l.cmp(&r), result)
    }
}

#[test]
fn test_cmp_json_integers() {
    let cases = vec![
        (Json::from_i64(922337203685477581), Json::from_i64(922337203685477580), Ordering::Greater),
        (Json::from_i64(-1), Json::from_u64(18446744073709551615), Ordering::Less),
        (Json::from_i64(922337203685477580), Json::from_u64(922337203685477581), Ordering::Less),
        (Json::from_i64(2), Json::from_u64(1), Ordering::Greater),
        (Json::from_i64(i64::MAX), Json::from_u64(i64::MAX as u64), Ordering::Equal),
        (Json::from_u64(18446744073709551615), Json::from_i64(-1), Ordering::Greater),
        (Json::from_u64(922337203685477581), Json::from_i64(922337203685477580), Ordering::Greater),
        (Json::from_u64(1), Json::from_i64(2), Ordering::Less),
        (Json::from_u64(i64::MAX as u64), Json::from_i64(i64::MAX), Ordering::Equal),
    ];
    for (left, right, expected) in cases {
        assert_eq!(expected, left.cmp(&right));
    }
}

#[test]
fn test_cmp_json_same_kind() {
    // false is less than true
    assert_eq!(Json::from_bool(false).cmp(&Json::from_bool(true)), Ordering::Less);
    // numbers by value
    assert_eq!(Json::from_i64(-3).cmp(&Json::from_i64(3)), Ordering::Less);
    assert_eq!(Json::from_i64(3).cmp(&Json::from_i64(5)), Ordering::Less);
    // strings lexicographically
    assert_eq!(
        Json::from_string(b"hello".to_vec()).cmp(&Json::from_string(b"hello, world".to_vec())),
        Ordering::Less,
    );
    // arrays element by element
    let a = Json::from_array(vec![
        Json::from_string(b"a".to_vec()),
        Json::from_string(b"b".to_vec()),
    ]);
    let b = Json::from_array(vec![
        Json::from_string(b"a".to_vec()),
        Json::from_string(b"c".to_vec()),
    ]);
    assert_eq!(a.cmp(&b), Ordering::Less);
    // objects entry by entry
    let a = Json::from_object(vec![(b"a".to_vec(), Json::from_string(b"b".to_vec()))]);
    let b = Json::from_object(vec![(b"a".to_vec(), Json::from_string(b"c".to_vec()))]);
    assert_eq!(a.cmp(&b), Ordering::Less);
    // null equals null
    assert_eq!(Json::none().cmp(&Json::none()), Ordering::Equal);
}

#[test]
fn test_cmp_json_across_kinds() {
    // null < number < string < object < array < boolean
    assert_eq!(Json::none().cmp(&Json::from_object(vec![])), Ordering::Less);
    assert_eq!(
        Json::from_i64(2).cmp(&Json::from_string(b"hello, world".to_vec())),
        Ordering::Less,
    );
    assert_eq!(
        Json::from_string(b"hello, world".to_vec()).cmp(&Json::from_object(vec![])),
        Ordering::Less,
    );
    assert_eq!(
        Json::from_object(vec![]).cmp(&Json::from_array(vec![])),
        Ordering::Less,
    );
    assert_eq!(
        Json::from_array(vec![]).cmp(&Json::from_bool(false)),
        Ordering::Less,
    );
    assert_eq!(Json::from_i64(2).cmp(&Json::from_bool(true)), Ordering::Less);
}
