//! JSON values, identifiers, instants and texts.

use plan_ai_core::ids::{Uuid, NAMESPACE_OID};
use plan_ai_core::json::{from_value, object_of, parse, print, print_pretty, to_value, Json, Object, EMBEDDED_KEY};
use plan_ai_core::text::{
    char_is_white, text_is_empty, join, strip_prefix, text_contains, text_ends_with, text_eq,
    text_is_before, text_is_white, to_decimal,
};
use plan_ai_core::time::{Duration, Timestamp, FIRST_SECOND, LAST_SECOND};

#[test]
fn json_text_is_compact_and_sorted() {
    let v = parse(br#" { "b" : 1 , "a" : [ true , null , "x" ] } "#).unwrap();
    assert_eq!(print(&v), r#"{"a":[true,null,"x"],"b":1}"#);
    assert_eq!(print_pretty(&parse(b"[1]").unwrap()), "[\n  1\n]");
}

#[test]
fn json_reads_back() {
    for text in ["null", "-7", "18446744073709551615", r#"{"k":{"k":["\u0000ä\""]}}"#, "[]", "{}"] {
        let once = print(&parse(text.as_bytes()).unwrap());
        assert_eq!(print(&parse(once.as_bytes()).unwrap()), once);
    }
}

#[test]
fn json_nesting_is_limited() {
    let deep = |n: usize| format!("{}{}", "[".repeat(n), "]".repeat(n));
    assert!(parse(deep(127).as_bytes()).is_ok());
    assert!(parse(deep(128).as_bytes()).is_err());
}

#[test]
fn json_errors_are_the_parser_s() {
    let text = "[1,";
    let theirs = serde_json::from_str::<serde_json::Value>(text).unwrap_err().to_string();
    assert_eq!(parse(text.as_bytes()).unwrap_err(), theirs);
}

#[test]
fn json_values_pass_through() {
    let theirs: serde_json::Value =
        serde_json::from_str(r#"{"z":[1,2.5,-3],"a":{"x":null,"y":false}}"#).unwrap();
    let ours = from_value(theirs.clone());
    assert_eq!(to_value(ours), theirs);
}

#[test]
fn json_members() {
    let v = parse(br#"{"n":5,"f":1.5,"s":"t","neg":-1}"#).unwrap();
    assert_eq!(v.get("n").unwrap().as_u64(), Some(5));
    assert_eq!(v.get("f").unwrap().as_u64(), None);
    assert_eq!(v.get("neg").unwrap().as_u64(), None);
    assert_eq!(v.get("s").unwrap().as_str(), Some("t"));
    assert!(v.get("gone").is_none());
    assert!(Json::Null.get("n").is_none());
    assert_eq!(print(&Json::number(7)), "7");
}

#[test]
fn json_objects_keep_their_order() {
    let m = Object::new()
        .insert("b".into(), Json::Null)
        .insert("a".into(), Json::Bool(true))
        .insert("b".into(), Json::text("new"));
    assert_eq!(m.len(), 2);
    assert_eq!(m.member(0).0, "a");
    assert_eq!(m.get("b").unwrap().as_str(), Some("new"));
    let (m, gone) = m.remove("a");
    assert!(matches!(gone, Some(Json::Bool(true))));
    assert_eq!(print(&Json::Object(m)), r#"{"b":"new"}"#);
    let pairs = vec![
        ("x".to_string(), Json::Null),
        ("c".to_string(), Json::Null),
        ("x".to_string(), Json::number(1)),
    ];
    assert_eq!(print(&Json::Object(object_of(pairs))), r#"{"c":null,"x":1}"#);
}

#[test]
fn identifiers_are_hyphenated() {
    let bits = 0x0123_4567_89ab_cdef_fedc_ba98_7654_3210;
    assert_eq!(Uuid { bits }.to_text(), "01234567-89ab-cdef-fedc-ba9876543210");
    assert_eq!(Uuid { bits }.to_text(), uuid::Uuid::from_u128(bits).to_string());
}

#[test]
fn identifiers_from_names() {
    assert_eq!(uuid::Uuid::NAMESPACE_OID.as_u128(), NAMESPACE_OID);
    let ours = Uuid::new_v5(&Uuid { bits: NAMESPACE_OID }, b"user@example.org");
    let theirs = uuid::Uuid::new_v5(&uuid::Uuid::NAMESPACE_OID, b"user@example.org");
    assert_eq!(ours.bits, theirs.as_u128());
    assert_ne!(ours.bits, Uuid::new_v5(&Uuid { bits: 1 }, b"user@example.org").bits);
}

#[test]
fn instants_have_a_range() {
    assert!(Timestamp::new(FIRST_SECOND, 0).is_some());
    assert!(Timestamp::new(FIRST_SECOND - 1, 0).is_none());
    assert!(Timestamp::new(LAST_SECOND, 999_999_999).is_some());
    assert!(Timestamp::new(LAST_SECOND + 1, 0).is_none());
    // The range is that of the instants of chrono.
    assert!(chrono::DateTime::from_timestamp(FIRST_SECOND, 0).is_some());
    assert!(chrono::DateTime::from_timestamp(FIRST_SECOND - 1, 0).is_none());
    assert!(chrono::DateTime::from_timestamp(LAST_SECOND, 0).is_some());
    assert!(chrono::DateTime::from_timestamp(LAST_SECOND + 1, 0).is_none());
}

#[test]
fn leap_seconds_prolong_a_minute() {
    for (secs, nanos) in [
        (59, 1_500_000_000),
        (58, 1_500_000_000),
        (-1, 1_999_999_999),
        (59, 2_000_000_000),
        (0, 1_000_000_000),
    ] {
        assert_eq!(
            Timestamp::new(secs, nanos).is_some(),
            chrono::DateTime::from_timestamp(secs, nanos).is_some()
        );
    }
}

#[test]
fn instants_have_texts() {
    let t = Timestamp::new(1_767_225_600, 0).unwrap();
    assert_eq!(t.to_rfc3339(), "2026-01-01T00:00:00+00:00");
    assert_eq!(t.to_json_text(), "2026-01-01T00:00:00Z");
    assert_eq!(t.secs(), 1_767_225_600);
    assert_eq!(t.nanos(), 0);
    let t = Timestamp::new(1_767_225_600, 120_000_000).unwrap();
    assert_eq!(t.to_rfc3339(), "2026-01-01T00:00:00.120+00:00");
    // The texts are those that chrono and its serialisation write.
    for (secs, nanos) in [(0, 1), (59, 1_000_000_000), (FIRST_SECOND, 0), (LAST_SECOND, 5_000)] {
        let ours = Timestamp::new(secs, nanos).unwrap();
        let theirs = chrono::DateTime::from_timestamp(secs, nanos).unwrap();
        assert_eq!(ours.to_rfc3339(), theirs.to_rfc3339());
        assert_eq!(
            serde_json::to_value(theirs).unwrap(),
            serde_json::Value::String(ours.to_json_text())
        );
    }
}

#[test]
fn instants_are_ordered_as_they_come() {
    let a = Timestamp::new(10, 5).unwrap();
    let b = Timestamp::new(10, 6).unwrap();
    let c = Timestamp::new(11, 0).unwrap();
    assert!(b.after(&a) && c.after(&b) && c.after(&a));
    assert!(!a.after(&a) && !a.after(&b));
}

#[test]
fn waiting_counts_the_time_between() {
    let pairs = [
        ((100, 250_000_000), (98, 750_000_000)),
        ((98, 750_000_000), (100, 250_000_000)),
        ((7, 3), (7, 3)),
        // Leap seconds, on the same day and across days.
        ((120, 0), (59, 1_500_000_000)),
        ((59, 1_500_000_000), (120, 0)),
        ((59, 1_500_000_000), (58, 0)),
        ((86_400 + 59, 1_500_000_000), (120, 0)),
        ((86_400, 0), (59, 1_500_000_000)),
    ];
    for ((to_secs, to_nanos), (from_secs, from_nanos)) in pairs {
        let to = Timestamp::new(to_secs, to_nanos).unwrap();
        let from = Timestamp::new(from_secs, from_nanos).unwrap();
        let theirs = (chrono::DateTime::from_timestamp(to_secs, to_nanos).unwrap()
            - chrono::DateTime::from_timestamp(from_secs, from_nanos).unwrap())
        .to_std()
        .unwrap_or_default();
        assert_eq!(
            to.wait_from(&from),
            Duration { secs: theirs.as_secs(), nanos: theirs.subsec_nanos() }
        );
    }
    let to = Timestamp::new(100, 250_000_000).unwrap();
    let from = Timestamp::new(98, 750_000_000).unwrap();
    assert_eq!(to.wait_from(&from), Duration { secs: 1, nanos: 500_000_000 });
    assert_eq!(from.wait_from(&to), Duration { secs: 0, nanos: 0 });
}

/// The nanoseconds between two instants, by the rule for leap seconds.
fn between(to: (i64, u32), from: (i64, u32)) -> i128 {
    let day = 86_400;
    let leap = if to.0.rem_euclid(day) > from.0.rem_euclid(day) && from.1 >= 1_000_000_000 {
        1
    } else if to.0.rem_euclid(day) < from.0.rem_euclid(day) && to.1 >= 1_000_000_000 {
        -1
    } else {
        0
    };
    (to.0 - from.0 + leap) as i128 * 1_000_000_000 + to.1 as i128 - from.1 as i128
}

#[test]
fn the_rule_for_leap_seconds_is_chrono_s() {
    let instants =
        [(59, 0), (59, 1_700_000_000), (60, 0), (30, 5), (86_459, 1_200_000_000), (-1, 1_000_000_001)];
    for to in instants {
        for from in instants {
            let theirs = chrono::DateTime::from_timestamp(to.0, to.1).unwrap()
                - chrono::DateTime::from_timestamp(from.0, from.1).unwrap();
            assert_eq!(theirs.num_nanoseconds().unwrap() as i128, between(to, from));
        }
    }
}

#[test]
fn texts_are_read_by_character() {
    assert!(text_eq("aä", "aä") && !text_eq("a", "b") && !text_eq("a", "ab"));
    assert!(text_is_empty("") && !text_is_empty(" "));
    assert!(text_is_before("", "a") && text_is_before("a", "ab") && text_is_before("ab", "b"));
    assert!(text_is_before("z", "ä") && !text_is_before("a", "a"));
    assert!(text_contains("schön", "hö") && text_contains("x", "") && !text_contains("x", "xx"));
    assert!(text_ends_with("/api/metrics", "/metrics") && !text_ends_with("a", "ba"));
    assert_eq!(strip_prefix("#/$defs/Role", "#/$defs/").as_deref(), Some("Role"));
    assert_eq!(strip_prefix("x", "xy"), None);
    assert_eq!(join(&["a".to_string(), "b".to_string()], ", "), "a, b");
    assert_eq!(join(&[], ", "), "");
    assert_eq!(to_decimal(0), "0");
    assert_eq!(to_decimal(u64::MAX), u64::MAX.to_string());
}

#[test]
fn white_space_is_that_of_unicode() {
    for c in '\0'..=char::MAX {
        assert_eq!(char_is_white(c), c.is_whitespace(), "{c:?}");
    }
    assert!(text_is_white(""));
    assert!(text_is_white(" \t\n\u{a0}\u{3000}"));
    assert!(!text_is_white(" x "));
}

#[test]
fn embedded_texts_are_read_in_place_of_their_object() {
    let marked = |first: &str| {
        let mut pairs = vec![(EMBEDDED_KEY.to_string(), Json::text("7"))];
        if !first.is_empty() {
            pairs.push((first.to_string(), Json::Null));
        }
        Json::Object(object_of(pairs))
    };
    assert_eq!(print(&parse(print(&marked("")).as_bytes()).unwrap()), "7");
    // Behind another key it marks nothing.
    let text = print(&marked("!"));
    assert_eq!(print(&parse(text.as_bytes()).unwrap()), text);
}
