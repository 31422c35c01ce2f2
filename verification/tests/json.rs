//! JSON values and the texts around them.

use prvnz_edge_core::json::{json_of, value_of, Json, JsonMap};
use prvnz_edge_core::text::{decimal_text, is_white_space, same_text, split, strip_prefix, trim};

#[test]
fn members_stand_in_the_order_of_their_names() {
    let mut m = JsonMap::new();
    for name in ["b", "a", "é", "B", "ab", ""] {
        m.insert(name.to_string(), Json::text(name));
    }
    let names: Vec<&str> = (0..m.len()).map(|i| m.name_at(i)).collect();
    assert_eq!(names, vec!["", "B", "a", "ab", "b", "é"]);
    m.insert("a".to_string(), Json::Null);
    assert_eq!(m.len(), 6);
    assert_eq!(m.get("a"), Some(&Json::Null));
    assert_eq!(m.remove("ab"), Some(Json::text("ab")));
    assert_eq!(m.remove("ab"), None);
    assert_eq!(m.get("ab"), None);
    assert_eq!(m.len(), 5);
}

#[test]
fn the_later_of_two_members_with_one_name_counts() {
    let v = Json::read(b"{\"a\":1,\"b\":2,\"a\":null}").unwrap();
    assert_eq!(v.get("a"), Some(&Json::Null));
    assert_eq!(v.as_object().unwrap().len(), 2);
}

#[test]
fn json_reads_back() {
    let text = "{\"a\":[1,-2,true,null,\"x\\ny\"],\"b\":{},\"c\":[]}";
    let v = Json::read(text.as_bytes()).unwrap();
    assert_eq!(v.write().unwrap(), text.as_bytes());
    assert_eq!(Json::read(&v.write().unwrap()), Ok(v.clone()));
}

#[test]
fn nesting_has_a_limit() {
    let deep = |n: usize| format!("{}{}", "[".repeat(n), "]".repeat(n));
    assert!(Json::read(deep(127).as_bytes()).is_ok());
    assert!(Json::read(deep(128).as_bytes()).is_err());
    let mut v = Json::Null;
    for _ in 0..127 {
        v = Json::Array(vec![v]);
    }
    assert_eq!(Json::read(&v.write().unwrap()), Ok(v));
}

#[test]
fn faults_in_json_are_reported() {
    assert_eq!(
        Json::read(b"[1,]"),
        Err("trailing comma at line 1 column 4".to_string())
    );
    assert!(Json::read(b"\"\xff\"").is_err());
}

#[test]
fn numbers_are_written_in_decimal() {
    assert_eq!(decimal_text(0), "0");
    assert_eq!(decimal_text(907), "907");
    assert_eq!(decimal_text(u64::MAX), "18446744073709551615");
}

#[test]
fn texts_are_split_at_a_character() {
    assert_eq!(split("", '.'), vec![""]);
    assert_eq!(split("a..b.", '.'), vec!["a", "", "b", ""]);
    assert_eq!(split("é~ü", '~'), vec!["é", "ü"]);
}

#[test]
fn texts_are_trimmed_as_std_does() {
    for s in ["", " ", "a", " a b ", "\u{2003}a\u{85}", "\u{200b}a", "\t\r\n"] {
        assert_eq!(trim(s), s.trim());
    }
}

#[test]
fn white_space_is_what_std_takes_for_it() {
    for c in '\u{0}'..='\u{10ffff}' {
        assert_eq!(is_white_space(c), c.is_whitespace());
    }
}

#[test]
fn prefixes_are_stripped_once() {
    assert_eq!(strip_prefix("blake3:x", "blake3:"), Some("x".to_string()));
    assert_eq!(strip_prefix("//x", "/"), Some("/x".to_string()));
    assert_eq!(strip_prefix("blake", "blake3:"), None);
    assert!(same_text("é", "é"));
    assert!(!same_text("e", "é"));
}

#[test]
fn values_of_serde_json_come_and_go() {
    let text = "{\"a\":[1,-2,0.5,true,null,\"x\"],\"b\":{}}";
    let value: serde_json::Value = serde_json::from_str(text).unwrap();
    let j = json_of(value.clone());
    assert_eq!(Ok(j.clone()), Json::read(text.as_bytes()));
    assert_eq!(value_of(&j), value);
}

#[test]
fn floating_point_numbers_are_told_from_integers() {
    let free = |text: &str, levels: u8| {
        Json::read(text.as_bytes()).unwrap().is_float_free(levels)
    };
    assert!(free("18446744073709551615", 0));
    assert!(free("-9223372036854775808", 0));
    assert!(!free("1.0", 0));
    assert!(!free("18446744073709551616", 0));
    assert!(free("[{\"a\":[1,null]},\"x\"]", 3));
    assert!(!free("[{\"a\":[1,null]},\"x\"]", 2));
    assert!(!free("{\"a\":{\"b\":[0,1e3]}}", 127));
}

#[test]
fn integers_read_back_exactly() {
    for text in ["0", "-1", "9007199254740993", "18446744073709551615", "-9223372036854775808"] {
        let v = Json::read(text.as_bytes()).unwrap();
        assert_eq!(v.write().unwrap(), text.as_bytes());
        assert_eq!(Json::read(&v.write().unwrap()), Ok(v));
    }
}
