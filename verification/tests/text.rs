use tael_server::grouping::{assigned_to, group_by};
use tael_server::hex_number::{hex_id_text, parse_hex};
use tael_server::json::{object, quoted};
use tael_server::labels::{distinct_texts, Labels};
use tael_server::ranking::rank;
use tael_server::text::{ascii_lowercase, char_is_alphanumeric, contains, decimal_i64, decimal_u64, join, less, parse_i64, parse_unsigned, split, split_once, to_lower, to_upper, trim};
use tael_server::text_map::TextMap;
use tael_server::time::{seconds_between, Timestamp};

#[test]
fn letters_change_case_as_unicode_has_it() {
    assert_eq!(to_lower("ÄBC"), "äbc");
    assert_eq!(to_upper("straße"), "STRASSE");
    assert_eq!(ascii_lowercase("ÄBC"), "Äbc");
    assert!(char_is_alphanumeric('é'));
    assert!(!char_is_alphanumeric('-'));
    assert_eq!(trim("\u{2003} a b\t"), "a b");
}

#[test]
fn numbers_are_read_and_written() {
    assert_eq!(parse_unsigned("+7", u64::MAX), Some(7));
    assert_eq!(parse_unsigned("-7", u64::MAX), None);
    assert_eq!(parse_unsigned("18446744073709551615", u64::MAX), Some(u64::MAX));
    assert_eq!(parse_unsigned("18446744073709551616", u64::MAX), None);
    assert_eq!(parse_i64("-9223372036854775808"), Some(i64::MIN));
    assert_eq!(parse_i64("9223372036854775808"), None);
    assert_eq!(parse_i64(""), None);
    assert_eq!(decimal_i64(i64::MIN), "-9223372036854775808");
    assert_eq!(decimal_u64(0), "0");
}

#[test]
fn texts_are_cut_and_joined() {
    assert_eq!(split("a,,b", ','), vec!["a".to_string(), String::new(), "b".to_string()]);
    assert_eq!(split_once("a=~b=~c", "=~"), Some(("a".to_string(), "b=~c".to_string())));
    assert_eq!(split_once("abc", "="), None);
    assert_eq!(join(&vec!["a".to_string(), "b".to_string()], ", "), "a, b");
    assert!(contains("haystack", "sta"));
    assert!(contains("x", ""));
    assert!(less("a", "ab") && less("ab", "b") && !less("b", "b"));
}

#[test]
fn labels_are_a_sorted_map() {
    let mut l = Labels::new();
    l.insert("b".into(), "1".into());
    l.insert("a".into(), "2".into());
    l.insert("b".into(), "3".into());
    assert_eq!(l.len(), 2);
    assert_eq!(l.get("b").map(String::as_str), Some("3"));
    assert_eq!(l.names(), vec!["a".to_string(), "b".to_string()]);
    assert_eq!(l.remove("a").as_deref(), Some("2"));
    assert!(!l.contains("a"));
    assert_eq!(
        distinct_texts(&vec!["b".to_string(), "a".to_string(), "b".to_string()]),
        vec!["a".to_string(), "b".to_string()]
    );
}

#[test]
fn json_strings_escape_what_they_must() {
    assert_eq!(quoted("a\"\\\n\u{1}é/"), "\"a\\\"\\\\\\n\\u0001é/\"");
    let mut l = Labels::new();
    l.insert("k".into(), "v".into());
    assert_eq!(object(&l), "{\"k\":\"v\"}");
}

#[test]
fn identifiers_are_sixteen_digits() {
    assert_eq!(hex_id_text(42), "000000000000002a");
    assert_eq!(hex_id_text(u64::MAX), "ffffffffffffffff");
    assert_eq!(parse_hex("2A"), Some(42));
    assert_eq!(parse_hex("10000000000000000"), None);
    assert_eq!(parse_hex("xyz"), None);
}

#[test]
fn groups_are_in_the_order_of_their_keys() {
    let keys = vec!["b".to_string(), "a".to_string(), "b".to_string()];
    let groups = group_by(&keys);
    let found: Vec<(String, Vec<usize>)> = groups.into_iter().map(|g| (g.key, g.members)).collect();
    assert_eq!(found, vec![("a".to_string(), vec![1]), ("b".to_string(), vec![0, 2])]);
    assert_eq!(assigned_to(&vec![1, 0, 1], 1), vec![0, 2]);
}

#[test]
fn a_ranking_puts_the_greater_first_and_keeps_equals() {
    assert_eq!(rank(&vec![1i64, 3, 2, 3]), vec![1, 3, 2, 0]);
}

#[test]
fn a_text_map_keeps_the_last_value() {
    let mut m: TextMap<u64> = TextMap::new();
    m.insert("a".into(), 1);
    m.insert("a".into(), 2);
    assert_eq!(m.get("a"), Some(&2));
    assert_eq!(m.remove("a"), Some(2));
    assert_eq!(m.get("a"), None);
}

#[test]
fn instants_are_written_and_compared() {
    let t = Timestamp::new(1_700_000_000, 123_000_000).unwrap();
    assert_eq!(t.to_rfc3339(), "2023-11-14T22:13:20.123+00:00");
    assert_eq!(Timestamp::from_unix_nanos(1).to_rfc3339(), "1970-01-01T00:00:00.000000001+00:00");
    assert_eq!(t.millis(), 1_700_000_000_123);
    assert!(Timestamp::new(0, 1_000_000_000).is_none());
    let later = Timestamp::new(1_700_000_002, 0).unwrap();
    assert_eq!(seconds_between(&t, &later), 1);
    assert!(t.before(&later));
    assert_eq!(later.minus_seconds(2).unwrap().seconds(), 1_700_000_000);
}

#[test]
fn leap_seconds_are_instants_of_their_own() {
    let parts = [
        (1_483_228_799, 1_250_000_000),
        (1_483_228_799, 250_000_000),
        (1_483_228_800, 0),
        (1_483_228_805, 5),
        (1_483_200_059, 1_999_999_999),
        (1_483_200_065, 0),
        (1_483_142_399, 1_000_000_000),
        (-1, 1_000_000_001),
    ];
    for (secs, nanos) in parts {
        let ours = Timestamp::new(secs, nanos).unwrap();
        let theirs = chrono::DateTime::from_timestamp(secs, nanos).unwrap();
        assert_eq!(ours.to_rfc3339(), theirs.to_rfc3339());
        assert_eq!(ours.millis(), theirs.timestamp_millis());
        for n in [-86_400, -1, 0, 1, 59, 86_400] {
            let back = ours.minus_seconds(n).unwrap();
            let moved = theirs - chrono::TimeDelta::try_seconds(n).unwrap();
            assert_eq!((back.seconds(), back.subsec_nanos()), (moved.timestamp(), moved.timestamp_subsec_nanos()));
        }
        for (s, n) in parts {
            let other = Timestamp::new(s, n).unwrap();
            let their_other = chrono::DateTime::from_timestamp(s, n).unwrap();
            let span = theirs.signed_duration_since(their_other);
            assert_eq!(ours.nanos_since(&other), i128::from(span.num_nanoseconds().unwrap()));
            assert_eq!(seconds_between(&other, &ours), span.num_seconds());
            assert_eq!(ours.before(&other), theirs < their_other);
        }
    }
}
