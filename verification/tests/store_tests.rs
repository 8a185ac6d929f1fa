use portfolio_explorer::adapters::base::FloatText;
use portfolio_explorer::adapters::base::StoreError;
use portfolio_explorer::adapters::base::Value;
use portfolio_explorer::adapters::base::ValueType;
use portfolio_explorer::exposition::expose;
use portfolio_explorer::exposition::render;
use portfolio_explorer::store::MetricStore;

fn key(s: &str) -> String {
    String::from(s)
}

#[test]
fn registers_and_sets_an_integer_gauge() {
    let mut store = MetricStore::new();
    assert!(store.register(key("a_x"), ValueType::Int).is_ok());
    assert!(store.set(&key("a_x"), Value::Int(5)).is_ok());
    match store.get(&key("a_x")) {
        Some(Value::Int(v)) => assert_eq!(*v, 5),
        _ => panic!("expected an integer gauge"),
    }
}

#[test]
fn a_fresh_gauge_starts_at_zero() {
    let mut store = MetricStore::new();
    assert!(store.register(key("a_x"), ValueType::Int).is_ok());
    match store.get(&key("a_x")) {
        Some(Value::Int(v)) => assert_eq!(*v, 0),
        _ => panic!("expected an integer gauge"),
    }
}

#[test]
fn rejects_a_key_under_another_type() {
    let mut store = MetricStore::new();
    assert!(store.register(key("a_x"), ValueType::Int).is_ok());
    assert_eq!(
        store.register(key("a_x"), ValueType::Float),
        Err(StoreError::DuplicateKey)
    );
}

#[test]
fn rejects_any_existing_key_and_keeps_its_value() {
    let mut store = MetricStore::new();
    assert!(store.register(key("a_x"), ValueType::Int).is_ok());
    assert!(store.set(&key("a_x"), Value::Int(9)).is_ok());
    // a collision is a configuration error even under the same type, and
    // the live entry is left intact
    assert_eq!(
        store.register(key("a_x"), ValueType::Int),
        Err(StoreError::DuplicateKey)
    );
    match store.get(&key("a_x")) {
        Some(Value::Int(v)) => assert_eq!(*v, 9),
        _ => panic!("expected an integer gauge"),
    }
}

#[test]
fn rejects_a_name_outside_the_grammar() {
    let mut store = MetricStore::new();
    assert_eq!(
        store.register(key("bad key"), ValueType::Int),
        Err(StoreError::InvalidKey)
    );
    assert_eq!(
        store.register(key(""), ValueType::Int),
        Err(StoreError::InvalidKey)
    );
}

#[test]
fn rejects_a_set_on_an_unknown_key() {
    let mut store = MetricStore::new();
    assert_eq!(
        store.set(&key("nope"), Value::Int(1)),
        Err(StoreError::UnknownKey)
    );
}

#[test]
fn rejects_a_set_under_the_wrong_tag() {
    let mut store = MetricStore::new();
    assert!(store.register(key("a_x"), ValueType::Int).is_ok());
    let f = FloatText::new(String::from("1.5")).expect("valid float text");
    assert_eq!(
        store.set(&key("a_x"), Value::Float(f)),
        Err(StoreError::TypeMismatch)
    );
    // the failed write left the value alone
    match store.get(&key("a_x")) {
        Some(Value::Int(v)) => assert_eq!(*v, 0),
        _ => panic!("expected an integer gauge"),
    }
}

#[test]
fn float_text_accepts_exactly_the_grammar() {
    assert!(FloatText::new(String::from("2.5")).is_some());
    assert!(FloatText::new(String::from("-1e9")).is_some());
    assert!(FloatText::new(String::from("abc")).is_none());
    assert!(FloatText::new(String::from("1..2")).is_none());
}

#[test]
fn snapshot_keeps_registration_order() {
    let mut store = MetricStore::new();
    assert!(store.register(key("b_y"), ValueType::Int).is_ok());
    assert!(store.register(key("a_x"), ValueType::Int).is_ok());
    let snap = store.snapshot();
    assert_eq!(snap.len(), 2);
    assert_eq!(snap[0].key, "b_y");
    assert_eq!(snap[1].key, "a_x");
}

#[test]
fn renders_one_block_per_key_with_current_values() {
    let mut store = MetricStore::new();
    assert!(store.register(key("a_x"), ValueType::Int).is_ok());
    assert!(store.register(key("b_y"), ValueType::Float).is_ok());
    assert!(store.set(&key("a_x"), Value::Int(42)).is_ok());
    let f = FloatText::new(String::from("2.5")).expect("valid float text");
    assert!(store.set(&key("b_y"), Value::Float(f)).is_ok());
    let body = expose(&store);
    assert_eq!(
        body,
        "# HELP a_x Value of a_x\n# TYPE a_x gauge\na_x 42\n# HELP b_y Value of b_y\n# TYPE b_y gauge\nb_y 2.5\n"
    );
}

#[test]
fn renders_fresh_gauges_at_zero() {
    let mut store = MetricStore::new();
    assert!(store.register(key("a_x"), ValueType::Int).is_ok());
    assert!(store.register(key("b_y"), ValueType::Float).is_ok());
    let snap = store.snapshot();
    let body = render(&snap);
    assert_eq!(
        body,
        "# HELP a_x Value of a_x\n# TYPE a_x gauge\na_x 0\n# HELP b_y Value of b_y\n# TYPE b_y gauge\nb_y 0\n"
    );
}

#[test]
fn exposes_exactly_one_sample_line_per_key() {
    let mut store = MetricStore::new();
    assert!(store.register(key("one_a"), ValueType::Int).is_ok());
    assert!(store.register(key("two_b"), ValueType::Int).is_ok());
    assert!(store.register(key("three_c"), ValueType::Int).is_ok());
    let body = expose(&store);
    let sample_lines: Vec<&str> = body
        .lines()
        .filter(|l| !l.starts_with('#') && !l.is_empty())
        .collect();
    assert_eq!(sample_lines, vec!["one_a 0", "two_b 0", "three_c 0"]);
}
