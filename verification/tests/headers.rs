use httplib::Headers;

#[test]
fn headers_start_empty() {
    let h = Headers::new();
    assert_eq!(h.len(), 0);
    assert!(h.is_empty());
    assert_eq!(h.get("a"), None);
    assert!(!h.contains_key("a"));
    assert!(h.entry(0).is_none());
}

#[test]
fn headers_insert_and_overwrite_in_place() {
    let mut h = Headers::new();
    h.insert(String::from("a"), String::from("1"));
    h.insert(String::from("b"), String::from("2"));
    h.insert(String::from("a"), String::from("3"));
    assert_eq!(h.len(), 2);
    assert!(!h.is_empty());
    assert_eq!(h.get("a").unwrap(), "3");
    assert_eq!(h.get("b").unwrap(), "2");
    let (name, value) = h.entry(0).unwrap();
    assert_eq!((name.as_str(), value.as_str()), ("a", "3"));
    let (name, value) = h.entry(1).unwrap();
    assert_eq!((name.as_str(), value.as_str()), ("b", "2"));
    assert!(h.entry(2).is_none());
}

#[test]
fn headers_remove_and_clear() {
    let mut h = Headers::new();
    h.insert(String::from("a"), String::from("1"));
    h.insert(String::from("b"), String::from("2"));
    h.insert(String::from("c"), String::from("3"));
    h.remove("b");
    h.remove("missing");
    assert_eq!(h.len(), 2);
    assert!(h.contains_key("a"));
    assert!(!h.contains_key("b"));
    assert_eq!(h.entry(1).unwrap().0, "c");
    h.clear();
    assert!(h.is_empty());
    assert!(!h.contains_key("a"));
}

#[test]
fn header_names_are_case_sensitive() {
    let mut h = Headers::new();
    h.insert(String::from("Host"), String::from("x"));
    assert!(h.contains_key("Host"));
    assert!(!h.contains_key("host"));
    h.insert(String::from("host"), String::from("y"));
    assert_eq!(h.len(), 2);
    assert_eq!(h.get("Host").unwrap(), "x");
    assert_eq!(h.get("host").unwrap(), "y");
}
