use curiefense::requestfields::RequestField;
use curiefense::tags::Tags;

#[test]
fn add_stores_and_gets() {
    let mut rf = RequestField::new();
    rf.add("k".to_string(), "v".to_string());
    assert_eq!(rf.get_str("k"), Some("v"));
    assert_eq!(rf.get_str("missing"), None);
    assert_eq!(rf.len(), 1);
    assert!(!rf.is_empty());
}

#[test]
fn add_merges_with_space() {
    let mut rf = RequestField::new();
    rf.add("k".to_string(), "a".to_string());
    rf.add("k".to_string(), "b".to_string());
    assert_eq!(rf.get_str("k"), Some("a b"));
    assert_eq!(rf.len(), 1);
}

#[test]
fn base64_shadow_created() {
    // "YWRtaW4=" decodes to "admin": both entries must exist.
    let mut rf = RequestField::new();
    rf.add("x".to_string(), "YWRtaW4=".to_string());
    assert_eq!(rf.get_str("x"), Some("YWRtaW4="));
    assert_eq!(rf.get_str("x_base64"), Some("admin"));
    assert_eq!(rf.len(), 2);
}

#[test]
fn base64_shadow_not_created_for_empty() {
    let mut rf = RequestField::new();
    rf.add("x".to_string(), "".to_string());
    assert_eq!(rf.get_str("x"), Some(""));
    assert_eq!(rf.get_str("x_base64"), None);
}

#[test]
fn base64_shadow_not_created_for_invalid_base64() {
    let mut rf = RequestField::new();
    rf.add("x".to_string(), "!!!".to_string());
    assert_eq!(rf.get_str("x"), Some("!!!"));
    assert_eq!(rf.get_str("x_base64"), None);
}

#[test]
fn base64_shadow_not_created_for_non_utf8_decode() {
    // "/w==" decodes to the single byte 0xFF, which is not valid UTF-8.
    let mut rf = RequestField::new();
    rf.add("x".to_string(), "/w==".to_string());
    assert_eq!(rf.get_str("x"), Some("/w=="));
    assert_eq!(rf.get_str("x_base64"), None);
}

#[test]
fn base64_shadow_inserted_before_raw() {
    // A pre-existing entry under the shadow key merges with the decoded
    // value before the raw value is merged under its own key.
    let mut rf = RequestField::new();
    rf.add("x_base64".to_string(), "first".to_string());
    rf.add("x".to_string(), "YWRtaW4=".to_string());
    assert_eq!(rf.get_str("x_base64"), Some("first admin"));
    assert_eq!(rf.get_str("x"), Some("YWRtaW4="));
}

#[test]
fn iter_exposes_entries() {
    let mut rf = RequestField::new();
    rf.add("a".to_string(), "1".to_string());
    rf.add("b".to_string(), "2".to_string());
    let entries = rf.iter();
    assert_eq!(entries.len(), 2);
    assert!(entries.iter().any(|p| p.0 == "a" && p.1 == "1"));
    assert!(entries.iter().any(|p| p.0 == "b" && p.1 == "2"));
}

#[test]
fn default_is_empty() {
    let rf = RequestField::default();
    assert!(rf.is_empty());
    assert_eq!(rf.len(), 0);
}

#[test]
fn tags_insert_and_contains() {
    let mut t = Tags::new();
    t.insert("all".to_string());
    t.insert_qualified("ip", "1.2.3.4");
    assert!(t.contains("all"));
    assert!(t.contains("ip:1.2.3.4"));
    assert!(!t.contains("ip:9.9.9.9"));
}

#[test]
fn tags_duplicates_collapse() {
    let mut t = Tags::new();
    t.insert("a".to_string());
    t.insert("a".to_string());
    assert_eq!(t.as_vec().len(), 1);
}

#[test]
fn tags_matching_keeps_list_order() {
    let mut t = Tags::new();
    t.insert("x".to_string());
    t.insert("z".to_string());
    let list = vec!["z".to_string(), "y".to_string(), "x".to_string()];
    let m = t.matching(&list);
    assert_eq!(m, vec!["z".to_string(), "x".to_string()]);
    assert!(t.has_any(&list));
    assert!(!t.has_all(&list));
    assert!(t.has_all(&vec!["x".to_string(), "z".to_string()]));
}

#[test]
fn from_pairs_collects_in_order() {
    let rf = curiefense::requestfields::RequestField::from_pairs(vec![
        ("k".to_string(), "a".to_string()),
        ("k".to_string(), "b".to_string()),
        ("x".to_string(), "YWRtaW4=".to_string()),
    ]);
    assert_eq!(rf.get_str("k"), Some("a b"));
    assert_eq!(rf.get_str("x_base64"), Some("admin"));
}

#[test]
fn tags_matching_empty_when_nothing_attaches() {
    let t = Tags::new();
    let list = vec!["a".to_string()];
    assert!(t.matching(&list).is_empty());
    assert!(!t.has_any(&list));
    assert!(t.has_all(&Vec::new()));
}
