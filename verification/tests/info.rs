use dotbim::Info;

fn text(s: &str) -> String {
    String::from(s)
}

#[test]
fn new_info_is_empty() {
    let info = Info::new();
    assert_eq!(info.len(), 0);
    assert!(info.is_empty());
    assert!(info.get("Key").is_none());
    assert!(info.entries().is_empty());
}

#[test]
fn insert_adds_and_replaces() {
    let mut info = Info::new();
    assert_eq!(info.insert(text("Author"), text("Jane Doe")), None);
    assert_eq!(info.insert(text("Date"), text("28.09.1999")), None);
    assert_eq!(info.len(), 2);
    assert!(!info.is_empty());
    assert_eq!(info.get("Author"), Some(&text("Jane Doe")));
    assert_eq!(info.get("Date"), Some(&text("28.09.1999")));
    assert_eq!(info.get("author"), None);

    assert_eq!(info.insert(text("Author"), text("John Doe")), Some(text("Jane Doe")));
    assert_eq!(info.len(), 2);
    assert_eq!(info.get("Author"), Some(&text("John Doe")));
    assert_eq!(
        info.entries(),
        &vec![(text("Author"), text("John Doe")), (text("Date"), text("28.09.1999"))]
    );
}

#[test]
fn info_equality_ignores_the_order_of_insertion() {
    let mut a = Info::new();
    a.insert(text("Author"), text("John Doe"));
    a.insert(text("Date"), text("28.09.1999"));
    let mut b = Info::new();
    b.insert(text("Date"), text("28.09.1999"));
    b.insert(text("Author"), text("John Doe"));
    assert!(a.eq(&b));
    assert!(b.eq(&a));
    assert_ne!(a.entries(), b.entries());
}

#[test]
fn info_equality_sees_keys_values_and_size() {
    let mut a = Info::new();
    a.insert(text("Author"), text("John Doe"));
    let mut b = Info::new();
    assert!(!a.eq(&b));
    assert!(!b.eq(&a));
    b.insert(text("Author"), text("Jane Doe"));
    assert!(!a.eq(&b));
    let mut c = Info::new();
    c.insert(text("Writer"), text("John Doe"));
    assert!(!a.eq(&c));
    let mut e = a.clone();
    assert!(a.eq(&e));
    e.insert(text("Date"), text("28.09.1999"));
    assert!(!a.eq(&e));
    assert!(!e.eq(&a));
}

#[test]
fn clone_keeps_the_entries() {
    let mut a = Info::new();
    a.insert(text("b"), text("1"));
    a.insert(text("a"), text("2"));
    let b = a.clone();
    assert_eq!(a.entries(), b.entries());
}
