use minihttp::headers::Headers;

#[test]
fn a_new_mapping_is_empty() {
    let h = Headers::new();
    assert_eq!(h.len(), 0);
    assert_eq!(h.get(b"Host"), None);
    assert!(h.entry(0).is_none());
}

#[test]
fn names_keep_the_order_in_which_they_came() {
    let mut h = Headers::new();
    h.insert(b"B".to_vec(), b"1".to_vec());
    h.insert(b"A".to_vec(), b"2".to_vec());
    h.insert(b"C".to_vec(), b"3".to_vec());
    assert_eq!(h.len(), 3);
    assert_eq!(h.entry(0).unwrap().0, b"B");
    assert_eq!(h.entry(1).unwrap().0, b"A");
    assert_eq!(h.entry(2).unwrap().0, b"C");
    assert_eq!(h.entry(2).unwrap().1, b"3");
    assert!(h.entry(3).is_none());
}

#[test]
fn the_last_value_wins() {
    let mut h = Headers::new();
    h.insert(b"A".to_vec(), b"1".to_vec());
    h.insert(b"B".to_vec(), b"2".to_vec());
    h.insert(b"A".to_vec(), b"3".to_vec());
    assert_eq!(h.len(), 2);
    assert_eq!(h.get(b"A"), Some(&b"3"[..]));
    assert_eq!(h.get(b"B"), Some(&b"2"[..]));
    assert_eq!(h.entry(0).unwrap().0, b"A");
    assert_eq!(h.entry(0).unwrap().1, b"3");
    assert_eq!(h.entry(1).unwrap().0, b"B");
}

#[test]
fn names_are_compared_byte_for_byte() {
    let mut h = Headers::new();
    h.insert(b"Content-Length".to_vec(), b"1".to_vec());
    assert_eq!(h.get(b"content-length"), None);
    assert_eq!(h.get(b"Content-Length "), None);
    assert_eq!(h.get(b"Content-Length"), Some(&b"1"[..]));
}
