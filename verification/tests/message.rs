use ordered_pubsub::ident::decimal_text;
use ordered_pubsub::message::Message;

#[test]
fn new_message_is_unordered() {
    let m = Message::new(b"abc".to_vec());
    assert_eq!(m.data, b"abc".to_vec());
    assert_eq!(m.ordering_key, "");
    assert!(m.attributes.is_empty());
    assert!(!m.is_ordered());
}

#[test]
fn empty_payload_is_permitted() {
    let m = Message::new(Vec::new());
    assert!(m.data.is_empty());
    assert!(!m.is_ordered());
    let o = Message::ordered(Vec::new(), "k".to_string());
    assert!(o.data.is_empty());
    assert!(o.is_ordered());
}

#[test]
fn ordered_message_keeps_its_key() {
    let m = Message::ordered(b"abc".to_vec(), "order".to_string());
    assert_eq!(m.data, b"abc".to_vec());
    assert_eq!(m.ordering_key, "order");
    assert!(m.is_ordered());
}

#[test]
fn empty_key_means_no_ordering() {
    let m = Message::ordered(b"abc".to_vec(), String::new());
    assert!(!m.is_ordered());
}

#[test]
fn attributes_are_appended_in_order() {
    let m = Message::new(b"x".to_vec())
        .with_attribute("a".to_string(), "1".to_string())
        .with_attribute("b".to_string(), "2".to_string());
    assert_eq!(
        m.attributes,
        vec![("a".to_string(), "1".to_string()), ("b".to_string(), "2".to_string())]
    );
    assert_eq!(m.data, b"x".to_vec());
}

#[test]
fn duplicate_message_is_equal() {
    let m = Message::ordered(vec![0, 1, 2, 255], "key".to_string())
        .with_attribute("origin".to_string(), "test".to_string());
    let copy = m.duplicate();
    assert_eq!(copy, m);
    let empty = Message::new(Vec::new());
    assert_eq!(empty.duplicate(), empty);
}

#[test]
fn decimal_text_of_small_numbers() {
    assert_eq!(decimal_text(0), "0");
    assert_eq!(decimal_text(7), "7");
    assert_eq!(decimal_text(9), "9");
    assert_eq!(decimal_text(10), "10");
    assert_eq!(decimal_text(42), "42");
    assert_eq!(decimal_text(100), "100");
    assert_eq!(decimal_text(1234567890), "1234567890");
}

#[test]
fn decimal_text_of_the_largest_number() {
    assert_eq!(decimal_text(u64::MAX), "18446744073709551615");
}

#[test]
fn decimal_text_agrees_with_std() {
    for n in 0..2000u64 {
        assert_eq!(decimal_text(n), n.to_string());
    }
}

#[test]
fn attribute_is_looked_up_by_name() {
    let m = Message::new(b"x".to_vec())
        .with_attribute("a".to_string(), "1".to_string())
        .with_attribute("b".to_string(), "2".to_string());
    assert_eq!(m.attribute(&"a".to_string()), Some(&"1".to_string()));
    assert_eq!(m.attribute(&"b".to_string()), Some(&"2".to_string()));
    assert_eq!(m.attribute(&"c".to_string()), None);
    assert_eq!(Message::new(Vec::new()).attribute(&"a".to_string()), None);
}

#[test]
fn last_attribute_of_a_name_counts() {
    let m = Message::new(b"x".to_vec())
        .with_attribute("a".to_string(), "1".to_string())
        .with_attribute("b".to_string(), "2".to_string())
        .with_attribute("a".to_string(), "3".to_string());
    assert_eq!(m.attribute(&"a".to_string()), Some(&"3".to_string()));
    assert_eq!(m.attribute(&"b".to_string()), Some(&"2".to_string()));
}
