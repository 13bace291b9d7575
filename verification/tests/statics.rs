use ferrowl::statics::{Statics, ValueType};

#[test]
fn st_statics_from_later_pair_wins() {
    let s = Statics::from(vec![
        ("n".to_string(), ValueType::Int(1)),
        ("name".to_string(), ValueType::String("pump".to_string())),
        ("n".to_string(), ValueType::Int(2)),
    ]);
    assert_eq!(s.get_int("n"), Some(2));
    assert_eq!(s.get_string("name").as_deref(), Some("pump"));
}

#[test]
fn st_statics_add_returns_the_replaced_value() {
    let mut s = Statics::new();
    assert!(s.add("on".to_string(), ValueType::Bool(true)).is_none());
    match s.add("on".to_string(), ValueType::Bool(false)) {
        Some(ValueType::Bool(true)) => {}
        other => panic!("expected the previous value, got {other:?}"),
    }
    assert_eq!(s.get_bool("on"), Some(false));
}

#[test]
fn st_statics_getters_check_the_type() {
    let s = Statics::from(vec![
        ("pi".to_string(), ValueType::FloatBits(3.5f64.to_bits())),
        ("k".to_string(), ValueType::Int(-7)),
    ]);
    assert_eq!(s.get_float_bits("pi").map(f64::from_bits), Some(3.5));
    assert_eq!(s.get_int("pi"), None);
    assert_eq!(s.get_bool("k"), None);
    assert_eq!(s.get_string("k"), None);
    assert_eq!(s.get_int("k"), Some(-7));
    assert_eq!(s.get_int("missing"), None);
}
