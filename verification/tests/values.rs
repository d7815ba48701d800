//! Tests for the dynamic value type and its string-keyed mapping.

use nodeflow::llm::{LlmClient, Providers};
use nodeflow::value::{Dict, Value};

fn key(x: &str) -> String {
    x.to_string()
}

#[test]
fn dict_get_finds_inserted_binding() {
    let mut d = Dict::new();
    d.insert(key("a"), Value::Int(1));
    d.insert(key("b"), Value::Bool(true));
    assert!(d.get(&key("a")).unwrap().deep_eq(&Value::Int(1)));
    assert!(d.get(&key("b")).unwrap().deep_eq(&Value::Bool(true)));
    assert!(d.get(&key("c")).is_none());
}

#[test]
fn dict_insert_replaces_binding_of_same_key() {
    let mut d = Dict::new();
    d.insert(key("a"), Value::Int(1));
    d.insert(key("a"), Value::Int(2));
    assert!(d.get(&key("a")).unwrap().deep_eq(&Value::Int(2)));
}

#[test]
fn dict_equality_ignores_entry_order() {
    let mut d1 = Dict::new();
    d1.insert(key("a"), Value::Int(1));
    d1.insert(key("b"), Value::Int(2));
    let mut d2 = Dict::new();
    d2.insert(key("b"), Value::Int(2));
    d2.insert(key("a"), Value::Int(1));
    assert!(d1.deep_eq(&d2));
    assert!(Value::Object(d1).deep_eq(&Value::Object(d2)));
}

#[test]
fn dict_equality_detects_missing_and_differing_keys() {
    let mut d1 = Dict::new();
    d1.insert(key("a"), Value::Int(1));
    let mut d2 = Dict::new();
    d2.insert(key("a"), Value::Int(1));
    d2.insert(key("b"), Value::Int(2));
    assert!(!d1.deep_eq(&d2));
    assert!(!d2.deep_eq(&d1));
    let mut d3 = Dict::new();
    d3.insert(key("a"), Value::Int(9));
    assert!(!d1.deep_eq(&d3));
}

#[test]
fn deep_eq_compares_structure() {
    let v1 = Value::List(vec![Value::Null, Value::Text("hi".to_string())]);
    let v2 = Value::List(vec![Value::Null, Value::Text("hi".to_string())]);
    let v3 = Value::List(vec![Value::Null, Value::Text("ho".to_string())]);
    assert!(v1.deep_eq(&v2));
    assert!(!v1.deep_eq(&v3));
    assert!(!v1.deep_eq(&Value::Null));
    assert!(!Value::Int(1).deep_eq(&Value::Bool(true)));
}

#[test]
fn clone_is_a_deep_copy() {
    let mut inner = Dict::new();
    inner.insert(key("n"), Value::Int(5));
    let v = Value::List(vec![Value::Object(inner), Value::Int(1)]);
    let copy = v.clone();
    assert!(v.deep_eq(&copy));
}

#[test]
fn extended_with_prefers_the_base() {
    let mut entry = Dict::new();
    entry.insert(key("k"), Value::Int(1));
    entry.insert(key("only"), Value::Int(7));
    let mut base = Dict::new();
    base.insert(key("k"), Value::Int(42));
    let combined = entry.extended_with(&base);
    assert!(combined.get(&key("k")).unwrap().deep_eq(&Value::Int(42)));
    assert!(combined.get(&key("only")).unwrap().deep_eq(&Value::Int(7)));
}

#[test]
fn llm_client_binds_ollama_host() {
    let client = LlmClient::new();
    assert!(client.ollama_host().is_none());
    let bound = client.with_ollama("http://localhost:11434");
    assert_eq!(
        bound.ollama_host().map(|h| h.as_str()),
        Some("http://localhost:11434")
    );
}

#[test]
fn llm_client_default_has_no_provider() {
    let client: LlmClient<Providers<nodeflow::llm::Disabled>> = Default::default();
    assert!(client.ollama_host().is_none());
}
