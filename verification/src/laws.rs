//! The engine's laws: properties of flow traversal and of the batch
//! decorators, stated over the models and proved once for every behavior.

use vstd::prelude::*;

use crate::flow::{batch_inner, parallel_inner, start_node};
use crate::node::{
    batch_map_model, beh_exec_model, edge_lookup, effective_label, lemma_batch_map_model,
    node_step_model, traverse_model, AbsDict, Behavior, Node, NodeLogic,
};
use crate::value::AbsValue;

verus! {

/// When a node's run reports a label that has a registered successor, the
/// traversal continues at exactly that successor, with the flow's current
/// parameters unchanged and the shared state as the node's decide-next left
/// it.
pub proof fn lemma_flow_follows_edge<L: NodeLogic>(a: Node<L>, params: AbsDict, shared: AbsDict)
    ensures
        edge_lookup(a.successors@, effective_label(node_step_model(a, params, shared).0)) matches
            Some(b) ==> traverse_model(a, params, shared) == traverse_model(
            b,
            params,
            node_step_model(a, params, shared).1,
        ),
{
}

/// When a node's run reports a label with no registered successor, the
/// traversal terminates there: its result is exactly that label, with the
/// `"default"` substitution applied, and the shared state as mutated up to
/// that point.
pub proof fn lemma_flow_stops_without_edge<L: NodeLogic>(
    a: Node<L>,
    params: AbsDict,
    shared: AbsDict,
)
    ensures
        edge_lookup(a.successors@, effective_label(node_step_model(a, params, shared).0)) is None
            ==> traverse_model(a, params, shared) == (
            effective_label(node_step_model(a, params, shared).0),
            node_step_model(a, params, shared).1,
        ),
{
}

/// A batch compute over a sequence yields the inner compute of every
/// element, in input order; over anything that is not a sequence it yields
/// the null value.
pub proof fn lemma_batch_compute_maps_in_order<L: NodeLogic>(
    b: Behavior<L>,
    inner: Behavior<L>,
    items: Seq<AbsValue>,
)
    requires
        batch_inner(b) == Some(inner),
    ensures
        beh_exec_model(b, AbsValue::List(items)) == AbsValue::List(
            Seq::new(items.len(), |i: int| beh_exec_model(inner, items[i])),
        ),
        forall|v: AbsValue| !(v is List) ==> #[trigger] beh_exec_model(b, v) == AbsValue::Null,
{
    lemma_batch_map_model(inner, items);
    assert(batch_map_model(inner, items) =~= Seq::new(
        items.len(),
        |i: int| beh_exec_model(inner, items[i]),
    ));
}

/// A parallel batch compute yields the inner compute of every element,
/// ordered by input index; over anything that is not a sequence it yields
/// the null value. Completion order cannot show in the result: the result
/// is a function of the elements alone.
pub proof fn lemma_parallel_batch_compute_maps_in_order<L: NodeLogic>(
    b: Behavior<L>,
    inner: Behavior<L>,
    items: Seq<AbsValue>,
)
    requires
        parallel_inner(b) matches Some(p) && p.0 == inner,
    ensures
        beh_exec_model(b, AbsValue::List(items)) == AbsValue::List(
            Seq::new(items.len(), |i: int| beh_exec_model(inner, items[i])),
        ),
        forall|v: AbsValue| !(v is List) ==> #[trigger] beh_exec_model(b, v) == AbsValue::Null,
{
    lemma_batch_map_model(inner, items);
    assert(batch_map_model(inner, items) =~= Seq::new(
        items.len(),
        |i: int| beh_exec_model(inner, items[i]),
    ));
}

/// The concurrency bound of a parallel batch does not affect what its
/// compute stage yields.
pub proof fn lemma_parallel_batch_bound_independent<L: NodeLogic>(
    b1: Behavior<L>,
    b2: Behavior<L>,
    input: AbsValue,
)
    requires
        parallel_inner(b1) is Some,
        parallel_inner(b2) is Some,
        parallel_inner(b1)->Some_0.0 == parallel_inner(b2)->Some_0.0,
    ensures
        beh_exec_model(b1, input) == beh_exec_model(b2, input),
{
}

/// A flow nested as a node inside a parent flow produces, as that node's
/// run, the identical (label, shared state) pair that traversing the same
/// flow directly with the same parameters and shared state produces: the
/// packaging of the pair through the prepare/compute boundary loses
/// nothing. Running the flow at top level is that same run, so both agree.
pub proof fn lemma_nested_flow_equals_direct<L: NodeLogic>(
    f: Node<L>,
    params: AbsDict,
    shared: AbsDict,
)
    requires
        start_node(f.behavior) is Some,
    ensures
        ({
            let start = start_node(f.behavior)->Some_0;
            let (lbl, sh) = traverse_model(start, params, shared);
            node_step_model(f, params, shared) == (Some(lbl), sh)
        }),
{
    let start = start_node(f.behavior)->Some_0;
    let (lbl, sh) = traverse_model(start, params, shared);
    let packed = crate::node::pack_pair_model(params, shared);
    assert(crate::node::unpack_pair_model(packed) == (params, shared));
    let res = crate::node::pack_result_model(lbl, sh);
    assert(crate::node::unpack_result_model(res, shared) == (lbl, sh));
}

} // verus!
