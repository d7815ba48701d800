//! Scenario tests for the graph engine: traversal, edge choice, batch
//! computes, batch-flows, nesting, and edge registration.

use nodeflow::flow::{new_batch_node, new_parallel_batch_node, BatchFlow, Flow};
use nodeflow::node::{Node, NodeLogic};
use nodeflow::value::{Dict, Value};

fn key(x: &str) -> String {
    x.to_string()
}

fn get(d: &Dict, k: &str) -> Option<Value> {
    d.get(&key(k)).cloned()
}

fn dict_of(pairs: Vec<(&str, Value)>) -> Dict {
    let mut d = Dict::new();
    for (k, v) in pairs {
        d.insert(key(k), v);
    }
    d
}

/// One logic type covering every behavior the tests need; a graph is generic
/// over a single logic type, as an application's would be.
#[derive(Clone)]
enum TestLogic {
    /// Appends its tag to `visited` in shared state and chooses the label.
    Visit(&'static str, Option<&'static str>),
    /// prep: the parameter `k`; exec: identity; post: appends the compute
    /// result to `log` in shared state, terminal.
    AppendK,
    /// prep: the parameter `items`; exec: adds one to an integer; post:
    /// binds the compute result to `out` in shared state, terminal.
    Increment,
    /// prep: a fixed list of two parameter mappings `{k:1}` and `{k:2}`.
    TwoEntries,
}

fn push_onto(shared: &mut Dict, k: &str, v: Value) {
    let mut list = match shared.get(&key(k)) {
        Some(Value::List(items)) => items.clone(),
        _ => Vec::new(),
    };
    list.push(v);
    shared.insert(key(k), Value::List(list));
}

impl NodeLogic for TestLogic {
    fn prep(&self, params: &Dict, _shared: &Dict) -> Value {
        match self {
            TestLogic::Visit(_, _) => Value::Null,
            TestLogic::AppendK => get(params, "k").unwrap_or(Value::Null),
            TestLogic::Increment => get(params, "items").unwrap_or(Value::Null),
            TestLogic::TwoEntries => Value::List(vec![
                Value::Object(dict_of(vec![("k", Value::Int(1))])),
                Value::Object(dict_of(vec![("k", Value::Int(2))])),
            ]),
        }
    }

    fn exec(&self, input: &Value) -> Value {
        match self {
            TestLogic::Increment => match input {
                Value::Int(n) => Value::Int(n + 1),
                other => other.clone(),
            },
            _ => input.clone(),
        }
    }

    fn post(&self, shared: &mut Dict, _prep_res: &Value, exec_res: &Value) -> Option<String> {
        match self {
            TestLogic::Visit(tag, label) => {
                push_onto(shared, "visited", Value::Text(tag.to_string()));
                label.map(|l| l.to_string())
            }
            TestLogic::AppendK => {
                push_onto(shared, "log", exec_res.clone());
                None
            }
            TestLogic::Increment => {
                shared.insert(key("out"), exec_res.clone());
                None
            }
            TestLogic::TwoEntries => None,
        }
    }
}

fn texts(tags: Vec<&str>) -> Value {
    Value::List(tags.into_iter().map(|t| Value::Text(t.to_string())).collect())
}

#[test]
fn flow_follows_chosen_edge() {
    let b = Node::new(TestLogic::Visit("B", None));
    let a = Node::new(TestLogic::Visit("A", Some("x"))).next_on(b, "x");
    let flow = Flow::new(a);
    let mut shared = Dict::new();
    let label = flow.run(&mut shared);
    // A chose "x", so B ran next; B chose no label, which reads as "default".
    assert_eq!(label, Some("default".to_string()));
    assert!(get(&shared, "visited").unwrap().deep_eq(&texts(vec!["A", "B"])));
}

#[test]
fn flow_stops_at_unregistered_label() {
    let b = Node::new(TestLogic::Visit("B", None));
    let a = Node::new(TestLogic::Visit("A", Some("elsewhere"))).next_on(b, "x");
    let flow = Flow::new(a);
    let mut shared = Dict::new();
    let label = flow.run(&mut shared);
    // No edge is registered under "elsewhere": traversal ends at A with
    // exactly that label and the state as mutated so far.
    assert_eq!(label, Some("elsewhere".to_string()));
    assert!(get(&shared, "visited").unwrap().deep_eq(&texts(vec!["A"])));
}

#[test]
fn missing_label_reads_as_default_edge() {
    let b = Node::new(TestLogic::Visit("B", None));
    let a = Node::new(TestLogic::Visit("A", None)).next(b);
    let flow = Flow::new(a);
    let mut shared = Dict::new();
    let label = flow.run(&mut shared);
    assert_eq!(label, Some("default".to_string()));
    assert!(get(&shared, "visited").unwrap().deep_eq(&texts(vec!["A", "B"])));
}

#[test]
fn flow_params_replace_node_params() {
    // The flow's parameters fully replace the node's own before each run.
    let mut node = Node::new(TestLogic::AppendK);
    node.set_params(dict_of(vec![("k", Value::Int(99))]));
    let mut flow = Flow::new(node);
    flow.set_params(dict_of(vec![("k", Value::Int(7))]));
    let mut shared = Dict::new();
    flow.run(&mut shared);
    assert!(get(&shared, "log")
        .unwrap()
        .deep_eq(&Value::List(vec![Value::Int(7)])));
}

#[test]
fn batch_computes_each_element_in_order() {
    let mut node = new_batch_node(TestLogic::Increment);
    node.set_params(dict_of(vec![(
        "items",
        Value::List(vec![Value::Int(1), Value::Int(2), Value::Int(3)]),
    )]));
    let mut shared = Dict::new();
    node.run(&mut shared);
    let expected = Value::List(vec![Value::Int(2), Value::Int(3), Value::Int(4)]);
    assert!(get(&shared, "out").unwrap().deep_eq(&expected));
}

#[test]
fn batch_on_non_sequence_yields_null() {
    let mut node = new_batch_node(TestLogic::Increment);
    node.set_params(dict_of(vec![("items", Value::Int(5))]));
    let mut shared = Dict::new();
    node.run(&mut shared);
    assert!(get(&shared, "out").unwrap().deep_eq(&Value::Null));
}

#[test]
fn batch_on_empty_sequence_yields_empty_sequence() {
    let mut node = new_batch_node(TestLogic::Increment);
    node.set_params(dict_of(vec![("items", Value::List(vec![]))]));
    let mut shared = Dict::new();
    node.run(&mut shared);
    assert!(get(&shared, "out").unwrap().deep_eq(&Value::List(vec![])));
}

#[test]
fn parallel_batch_keeps_input_order() {
    let mut node = new_parallel_batch_node(TestLogic::Increment);
    node.set_params(dict_of(vec![(
        "items",
        Value::List(vec![Value::Int(10), Value::Int(20)]),
    )]));
    let mut shared = Dict::new();
    node.run(&mut shared);
    let expected = Value::List(vec![Value::Int(11), Value::Int(21)]);
    assert!(get(&shared, "out").unwrap().deep_eq(&expected));
}

#[test]
fn parallel_batch_on_non_sequence_yields_null() {
    let mut node = new_parallel_batch_node(TestLogic::Increment);
    node.set_params(dict_of(vec![("items", Value::Bool(true))]));
    let mut shared = Dict::new();
    node.run(&mut shared);
    assert!(get(&shared, "out").unwrap().deep_eq(&Value::Null));
}

#[test]
fn batch_flow_reuses_one_shared_state_in_order() {
    let flow = Flow::new(Node::new(TestLogic::AppendK));
    let batch = BatchFlow::new(flow, TestLogic::TwoEntries);
    let mut shared = Dict::new();
    let label = batch.run(&mut shared);
    // Both iterations appended to the same `log`, in entry order, and a
    // batch-flow is terminal.
    assert_eq!(label, None);
    let expected = Value::List(vec![Value::Int(1), Value::Int(2)]);
    assert!(get(&shared, "log").unwrap().deep_eq(&expected));
}

#[test]
fn batch_flow_baseline_params_win_on_collision() {
    // The flow's own baseline parameters overwrite an entry's binding of the
    // same key.
    let mut flow = Flow::new(Node::new(TestLogic::AppendK));
    flow.set_params(dict_of(vec![("k", Value::Int(42))]));
    let batch = BatchFlow::new(flow, TestLogic::TwoEntries);
    let mut shared = Dict::new();
    batch.run(&mut shared);
    let expected = Value::List(vec![Value::Int(42), Value::Int(42)]);
    assert!(get(&shared, "log").unwrap().deep_eq(&expected));
}

#[test]
fn nested_flow_matches_direct_run() {
    let params = dict_of(vec![("k", Value::Int(3))]);

    let mut direct = Flow::new(Node::new(TestLogic::AppendK));
    direct.set_params(params.clone());
    let mut direct_shared = Dict::new();
    let direct_label = direct.run(&mut direct_shared);

    let mut child = Flow::new(Node::new(TestLogic::AppendK));
    child.set_params(params.clone());
    let mut parent = Flow::new(child.into_node());
    parent.set_params(params);
    let mut nested_shared = Dict::new();
    let nested_label = parent.run(&mut nested_shared);

    assert_eq!(direct_label, nested_label);
    assert!(Value::Object(direct_shared).deep_eq(&Value::Object(nested_shared)));
}

#[test]
fn nested_flow_runs_as_a_successor_node() {
    // A parent flow branches into a nested flow exactly as into a leaf node,
    // and the parent's parameters replace the nested flow's own.
    let mut child = Flow::new(Node::new(TestLogic::AppendK));
    child.set_params(dict_of(vec![("k", Value::Int(1))]));
    let a = Node::new(TestLogic::Visit("A", Some("go"))).next_on(child.into_node(), "go");
    let mut parent = Flow::new(a);
    parent.set_params(dict_of(vec![("k", Value::Int(5))]));
    let mut shared = Dict::new();
    let label = parent.run(&mut shared);
    assert_eq!(label, Some("default".to_string()));
    assert!(get(&shared, "visited").unwrap().deep_eq(&texts(vec!["A"])));
    assert!(get(&shared, "log")
        .unwrap()
        .deep_eq(&Value::List(vec![Value::Int(5)])));
}

#[test]
fn second_edge_registration_replaces_first_and_warns() {
    let b1 = Node::new(TestLogic::Visit("B1", None));
    let b2 = Node::new(TestLogic::Visit("B2", None));
    let a = Node::new(TestLogic::Visit("A", Some("x")))
        .next_on(b1, "x")
        .next_on(b2, "x");
    // The overwritten label was recorded as a warning.
    assert_eq!(a.warnings, vec!["x".to_string()]);
    let flow = Flow::new(a);
    let mut shared = Dict::new();
    flow.run(&mut shared);
    // The second registration won: B2 ran, B1 did not.
    assert!(get(&shared, "visited").unwrap().deep_eq(&texts(vec!["A", "B2"])));
}

#[test]
fn first_edge_registration_records_no_warning() {
    let b = Node::new(TestLogic::Visit("B", None));
    let a = Node::new(TestLogic::Visit("A", None)).next_on(b, "x");
    assert!(a.warnings.is_empty());
}

#[test]
fn flow_start_can_be_replaced_before_running() {
    let mut flow = Flow::new(Node::new(TestLogic::Visit("old", None)));
    flow.start(Node::new(TestLogic::Visit("new", None)));
    let mut shared = Dict::new();
    flow.run(&mut shared);
    assert!(get(&shared, "visited").unwrap().deep_eq(&texts(vec!["new"])));
}
