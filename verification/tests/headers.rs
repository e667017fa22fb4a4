use http_rs::headers::Headers;

#[test]
fn new_headers_are_empty() {
    let headers = Headers::new();
    assert_eq!(headers.get("Host"), None);
    assert!(!headers.contains("Host"));
    assert_eq!(headers, Headers::new());
}

#[test]
fn insert_then_get() {
    let mut headers = Headers::new();
    headers.insert("Host".into(), "example.com".into());
    headers.insert("foo".into(), "bar".into());
    assert_eq!(headers.get("Host"), Some("example.com"));
    assert_eq!(headers.get("foo"), Some("bar"));
    assert_eq!(headers.get("Foo"), None);
    assert_eq!(headers.get("host"), None);
    assert!(headers.contains("foo"));
    assert!(!headers.contains("bar"));
}

#[test]
fn last_write_wins() {
    let mut headers = Headers::new();
    headers.insert("a".into(), "1".into());
    headers.insert("b".into(), "2".into());
    headers.insert("a".into(), "3".into());
    assert_eq!(headers.get("a"), Some("3"));
    assert_eq!(headers.get("b"), Some("2"));
    let mut want = Headers::new();
    want.insert("b".into(), "2".into());
    want.insert("a".into(), "3".into());
    assert_eq!(headers, want);
}

#[test]
fn equality_ignores_insertion_order() {
    let mut a = Headers::new();
    a.insert("x".into(), "1".into());
    a.insert("y".into(), "2".into());
    let mut b = Headers::new();
    b.insert("y".into(), "2".into());
    b.insert("x".into(), "1".into());
    assert_eq!(a, b);
    assert!(a.includes(&b));
    assert!(b.includes(&a));
}

#[test]
fn equality_sees_values_and_missing_names() {
    let mut a = Headers::new();
    a.insert("x".into(), "1".into());
    let mut b = Headers::new();
    b.insert("x".into(), "2".into());
    assert_ne!(a, b);
    let mut c = Headers::new();
    c.insert("x".into(), "1".into());
    c.insert("y".into(), "2".into());
    assert_ne!(a, c);
    assert_ne!(c, a);
    assert!(c.includes(&a));
    assert!(!a.includes(&c));
    assert!(a.includes(&Headers::new()));
    assert!(!Headers::new().includes(&a));
}

#[test]
fn names_keep_their_case() {
    let mut headers = Headers::new();
    headers.insert("Content-Type".into(), "a".into());
    headers.insert("content-type".into(), "b".into());
    assert_eq!(headers.get("Content-Type"), Some("a"));
    assert_eq!(headers.get("content-type"), Some("b"));
}
