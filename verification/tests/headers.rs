use httpserver::headers::Headers;

#[test]
fn new_headers_are_empty() {
    let h = Headers::new();
    assert_eq!(h.len(), 0);
    assert_eq!(h.get("Host"), None);
    assert_eq!(h.to_text(), "");
}

#[test]
fn insert_adds_and_replaces() {
    let mut h = Headers::new();
    h.insert("A".to_string(), "1".to_string());
    h.insert("B".to_string(), "2".to_string());
    h.insert("A".to_string(), "3".to_string());
    assert_eq!(h.len(), 2);
    assert_eq!(h.get("A"), Some(&"3".to_string()));
    assert_eq!(h.get("B"), Some(&"2".to_string()));
    assert_eq!(h.get("a"), None);
    let (name, value) = h.field(0);
    assert_eq!((name.as_str(), value.as_str()), ("A", "3"));
    let (name, value) = h.field(1);
    assert_eq!((name.as_str(), value.as_str()), ("B", "2"));
}

#[test]
fn headers_are_written_in_the_order_of_arrival() {
    let mut h = Headers::new();
    h.insert("Content-Type".to_string(), "text/html".to_string());
    h.insert("X-Extra".to_string(), " spaced".to_string());
    assert_eq!(h.to_text(), "Content-Type:text/html\r\nX-Extra: spaced\r\n");
}

#[test]
fn equality_ignores_order() {
    let mut a = Headers::new();
    a.insert("A".to_string(), "1".to_string());
    a.insert("B".to_string(), "2".to_string());
    let mut b = Headers::new();
    b.insert("B".to_string(), "2".to_string());
    b.insert("A".to_string(), "1".to_string());
    assert_eq!(a, b);

    let mut c = Headers::new();
    c.insert("A".to_string(), "1".to_string());
    assert_ne!(a, c);
    assert_ne!(c, a);

    let mut d = Headers::new();
    d.insert("A".to_string(), "1".to_string());
    d.insert("B".to_string(), "other".to_string());
    assert_ne!(a, d);
}

#[test]
fn clone_keeps_the_headers() {
    let mut a = Headers::new();
    a.insert("A".to_string(), "1".to_string());
    a.insert("B".to_string(), "2".to_string());
    let b = a.clone();
    assert_eq!(a, b);
    assert_eq!(b.to_text(), "A:1\r\nB:2\r\n");
}
