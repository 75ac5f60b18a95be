use dsvchc::json::{bool_json, quote, raw_json};
use dsvchc::names::{compare_names, NameOrder};
use dsvchc::protocol::{
    call_succeeded, perform_outcome, perform_status, reports_result, result_from_json,
    PerformStatus, PLUGIN_ERR_CODE_CHECK_FAIL, PLUGIN_ERR_CODE_OK,
};
use dsvchc::registry::NameMap;

#[test]
fn names_compare_by_characters() {
    assert_eq!(compare_names("a", "b"), NameOrder::Less);
    assert_eq!(compare_names("b", "a"), NameOrder::Greater);
    assert_eq!(compare_names("disk", "disk"), NameOrder::Equal);
    assert_eq!(compare_names("", ""), NameOrder::Equal);
    assert_eq!(compare_names("", "a"), NameOrder::Less);
    assert_eq!(compare_names("ab", "a"), NameOrder::Greater);
    assert_eq!(compare_names("Z", "a"), NameOrder::Less);
    assert_eq!(compare_names("é", "z"), NameOrder::Greater);
}

#[test]
fn names_order_agrees_with_string_order() {
    let names = ["", "a", "ab", "b", "B", "é", "z", "ä", "a b", "a-b"];
    for x in names.iter() {
        for y in names.iter() {
            let expected = match x.cmp(y) {
                std::cmp::Ordering::Less => NameOrder::Less,
                std::cmp::Ordering::Equal => NameOrder::Equal,
                std::cmp::Ordering::Greater => NameOrder::Greater,
            };
            assert_eq!(compare_names(x, y), expected, "{} vs {}", x, y);
        }
    }
}

#[test]
fn name_map_keeps_names_in_order() {
    let mut m: NameMap<u32> = NameMap::new();
    assert_eq!(m.len(), 0);
    assert_eq!(m.insert("memory".to_string(), 1), None);
    assert_eq!(m.insert("cpu".to_string(), 2), None);
    assert_eq!(m.insert("disk".to_string(), 3), None);
    assert_eq!(m.len(), 3);
    assert_eq!(m.name_at(0), "cpu");
    assert_eq!(m.name_at(1), "disk");
    assert_eq!(m.name_at(2), "memory");
    assert_eq!(*m.value_at(0), 2);
    assert_eq!(*m.value_at(1), 3);
    assert_eq!(*m.value_at(2), 1);
}

#[test]
fn name_map_insert_replaces_and_returns_old_value() {
    let mut m: NameMap<&str> = NameMap::new();
    assert_eq!(m.insert("a".to_string(), "first"), None);
    assert_eq!(m.insert("b".to_string(), "other"), None);
    assert_eq!(m.insert("a".to_string(), "second"), Some("first"));
    assert_eq!(m.len(), 2);
    assert_eq!(*m.value_at(0), "second");
    assert_eq!(*m.value_at(1), "other");
}

#[test]
fn name_map_order_does_not_depend_on_insertion_order() {
    let mut m1: NameMap<u8> = NameMap::new();
    let mut m2: NameMap<u8> = NameMap::new();
    let mut i: u8 = 0;
    for n in ["c", "a", "b"].iter() {
        m1.insert(n.to_string(), i);
        i += 1;
    }
    for n in ["b", "c", "a"].iter() {
        let v = match *n {
            "c" => 0,
            "a" => 1,
            _ => 2,
        };
        m2.insert(n.to_string(), v);
    }
    for i in 0..3 {
        assert_eq!(m1.name_at(i), m2.name_at(i));
        assert_eq!(m1.value_at(i), m2.value_at(i));
    }
}

#[test]
fn name_map_find() {
    let mut m: NameMap<u8> = NameMap::new();
    m.insert("beta".to_string(), 1);
    m.insert("alpha".to_string(), 2);
    assert_eq!(m.find("alpha"), Some(0));
    assert_eq!(m.find("beta"), Some(1));
    assert_eq!(m.find("gamma"), None);
    assert_eq!(m.find(""), None);
}

#[test]
fn name_map_value_at_mut_changes_value_only() {
    let mut m: NameMap<u8> = NameMap::new();
    m.insert("x".to_string(), 1);
    *m.value_at_mut(0) = 7;
    assert_eq!(m.name_at(0), "x");
    assert_eq!(*m.value_at(0), 7);
}

#[test]
fn status_codes() {
    assert_eq!(PLUGIN_ERR_CODE_OK, 0);
    assert_eq!(PLUGIN_ERR_CODE_CHECK_FAIL, 3);
    assert!(call_succeeded(0));
    assert!(!call_succeeded(3));
    assert!(!call_succeeded(-1));
    assert_eq!(perform_status(0), PerformStatus::Passed);
    assert_eq!(perform_status(3), PerformStatus::Failed);
    assert_eq!(perform_status(1), PerformStatus::Error);
    assert_eq!(perform_status(-3), PerformStatus::Error);
    assert!(reports_result(0));
    assert!(reports_result(3));
    assert!(!reports_result(2));
}

#[test]
fn perform_outcome_passed() {
    let r = perform_outcome(0, "{}".to_string()).unwrap().unwrap();
    assert!(r.ok);
    assert_eq!(r.extra, "{}");
}

#[test]
fn perform_outcome_failed_keeps_value_without_surrounding_space() {
    let r = perform_outcome(3, " {\"free\": 12} \n".to_string()).unwrap().unwrap();
    assert!(!r.ok);
    assert_eq!(r.extra, "{\"free\": 12}");
}

#[test]
fn perform_outcome_error_gives_message() {
    let r = perform_outcome(7, "cannot reach database".to_string()).unwrap();
    assert_eq!(r.unwrap_err(), "cannot reach database");
}

#[test]
fn perform_outcome_invalid_json_gives_none() {
    assert!(perform_outcome(0, "not json".to_string()).is_none());
    assert!(perform_outcome(3, "{} {}".to_string()).is_none());
    assert!(perform_outcome(0, String::new()).is_none());
}

#[test]
fn result_from_json_cases() {
    let r = result_from_json(false, Some("[1,2]".to_string())).unwrap();
    assert!(!r.ok);
    assert_eq!(r.extra, "[1,2]");
    assert!(result_from_json(true, None).is_none());
}

#[test]
fn quote_escapes_like_json() {
    assert_eq!(quote("plain"), "\"plain\"");
    assert_eq!(quote(""), "\"\"");
    assert_eq!(quote("a\"b\\c"), "\"a\\\"b\\\\c\"");
    assert_eq!(quote("\n\t\r\u{8}\u{c}"), "\"\\n\\t\\r\\b\\f\"");
    assert_eq!(quote("\u{1}\u{1f}"), "\"\\u0001\\u001f\"");
    assert_eq!(quote("é/ü"), "\"é/ü\"");
}

#[test]
fn raw_json_checks_values() {
    assert_eq!(raw_json("{}".to_string()), Some("{}".to_string()));
    assert_eq!(raw_json(" 42 ".to_string()), Some("42".to_string()));
    assert_eq!(raw_json("[true, null]".to_string()), Some("[true, null]".to_string()));
    assert_eq!(raw_json("{".to_string()), None);
    assert_eq!(raw_json("".to_string()), None);
}

#[test]
fn bool_as_json() {
    assert_eq!(bool_json(true), "true");
    assert_eq!(bool_json(false), "false");
}
