use packard::value::Value;

#[test]
fn getters_give_the_contents_of_their_kind() {
    let t = Value::Text("hi".to_string());
    let n = Value::Number(2.5f64.to_bits());
    let f = Value::Flag(true);
    let c = Value::Container(vec![("k".to_string(), Value::Item)]);
    assert_eq!(t.as_text(), Some("hi"));
    assert_eq!(n.as_text(), None);
    assert_eq!(n.as_number().map(f64::from_bits), Some(2.5));
    assert_eq!(f.as_number(), None);
    assert_eq!(f.as_flag(), Some(true));
    assert_eq!(t.as_flag(), None);
    assert!(Value::Item.is_item());
    assert!(!Value::Null.is_item());
    assert_eq!(c.as_container().map(|v| v.len()), Some(1));
    assert!(t.as_container().is_none());
}

#[test]
fn as_container_mut_changes_the_container() {
    let mut c = Value::Container(vec![]);
    c.as_container_mut().unwrap().push(("gem".to_string(), Value::Item));
    match &c {
        Value::Container(entries) => assert_eq!(entries[0].0, "gem"),
        other => panic!("{:?}", other),
    }
    let mut t = Value::Text("x".to_string());
    assert!(t.as_container_mut().is_none());
}

#[test]
fn kind_names() {
    assert_eq!(Value::Text(String::new()).kind_name(), "text");
    assert_eq!(Value::Number(0).kind_name(), "number");
    assert_eq!(Value::Flag(false).kind_name(), "flag");
    assert_eq!(Value::Item.kind_name(), "item");
    assert_eq!(Value::Container(vec![]).kind_name(), "container");
    assert_eq!(Value::Null.kind_name(), "null");
}

#[test]
fn truthiness() {
    assert!(!Value::Text(String::new()).is_truthy());
    assert!(Value::Text("a".to_string()).is_truthy());
    assert!(!Value::Number(0.0f64.to_bits()).is_truthy());
    assert!(!Value::Number((-0.0f64).to_bits()).is_truthy());
    assert!(Value::Number(f64::NAN.to_bits()).is_truthy());
    assert!(Value::Number(3.0f64.to_bits()).is_truthy());
    assert!(Value::Flag(true).is_truthy());
    assert!(!Value::Flag(false).is_truthy());
    assert!(Value::Item.is_truthy());
    assert!(!Value::Container(vec![]).is_truthy());
    assert!(Value::Container(vec![("a".to_string(), Value::Null)]).is_truthy());
    assert!(!Value::Null.is_truthy());
}

#[test]
fn duplicate_copies_nested_containers() {
    let v = Value::Container(vec![("bag".to_string(), Value::Container(vec![("gem".to_string(), Value::Item)]))]);
    assert_eq!(v.duplicate(), v);
}
