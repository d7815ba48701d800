//! Flows and batch-flows as nodes: the wrappers and factories that build
//! graph vertices out of behaviors.

use vstd::prelude::*;

use crate::node::{node_step_model, opt_label_model, Behavior, Node, NodeLogic};
use crate::value::Dict;

verus! {

/// The bound on in-flight elements a parallel batch is built with when its
/// builder names none.
pub const DEFAULT_MAX_CONCURRENCY: usize = 50;

/// The start node of a flow behavior, if the behavior is one.
pub open spec fn start_node<L>(b: Behavior<L>) -> Option<Node<L>> {
    match b {
        Behavior::Flow(s) => Some(*s),
        _ => None,
    }
}

/// The flow node and list-producing behavior of a batch-flow behavior, if
/// the behavior is one.
pub open spec fn batch_flow_parts<L>(b: Behavior<L>) -> Option<(Node<L>, L)> {
    match b {
        Behavior::BatchFlow(n, p) => Some((*n, p)),
        _ => None,
    }
}

/// The wrapped behavior of a batch behavior, if the behavior is one.
pub open spec fn batch_inner<L>(b: Behavior<L>) -> Option<Behavior<L>> {
    match b {
        Behavior::Batch(i) => Some(*i),
        _ => None,
    }
}

/// The wrapped behavior and concurrency bound of a parallel batch behavior,
/// if the behavior is one.
pub open spec fn parallel_inner<L>(b: Behavior<L>) -> Option<(Behavior<L>, usize)> {
    match b {
        Behavior::ParallelBatch(i, c) => Some((*i, c)),
        _ => None,
    }
}

impl<L: NodeLogic> Behavior<L> {
    /// A batch over `inner`: compute maps `inner`'s compute over a sequence.
    pub fn batch_of(inner: Behavior<L>) -> (r: Behavior<L>)
        ensures
            batch_inner(r) == Some(inner),
    {
        Behavior::Batch(Box::new(inner))
    }

    /// A parallel batch over `inner` with the default concurrency bound.
    pub fn parallel_batch_of(inner: Behavior<L>) -> (r: Behavior<L>)
        ensures
            parallel_inner(r) == Some((inner, DEFAULT_MAX_CONCURRENCY)),
    {
        Behavior::ParallelBatch(Box::new(inner), DEFAULT_MAX_CONCURRENCY)
    }

    /// Replaces a parallel batch's concurrency bound; the bound must be
    /// positive.
    pub fn with_concurrency(self, max_concurrency: usize) -> (r: Behavior<L>)
        requires
            max_concurrency > 0,
            parallel_inner(self) is Some,
        ensures
            parallel_inner(r) == Some((parallel_inner(self)->Some_0.0, max_concurrency)),
    {
        match self {
            Behavior::ParallelBatch(inner, _) => Behavior::ParallelBatch(inner, max_concurrency),
            other => other,
        }
    }
}

/// A node whose compute stage applies `logic`'s compute to every element of
/// a sequence, in order.
pub fn new_batch_node<L: NodeLogic>(logic: L) -> (r: Node<L>)
    ensures
        batch_inner(r.behavior) == Some(Behavior::User(logic)),
        r.params@ == Map::<Seq<char>, crate::value::AbsValue>::empty(),
        r.successors@ == Seq::<(String, Node<L>)>::empty(),
        r.warnings@ == Seq::<String>::empty(),
{
    Node::from_behavior(Behavior::batch_of(Behavior::User(logic)))
}

/// A node whose compute stage applies `logic`'s compute to every element of
/// a sequence, admitting at most [`DEFAULT_MAX_CONCURRENCY`] elements in
/// flight when run on a concurrent scheduler; the result order is the input
/// order either way.
pub fn new_parallel_batch_node<L: NodeLogic>(logic: L) -> (r: Node<L>)
    ensures
        parallel_inner(r.behavior) == Some((Behavior::User(logic), DEFAULT_MAX_CONCURRENCY)),
        r.params@ == Map::<Seq<char>, crate::value::AbsValue>::empty(),
        r.successors@ == Seq::<(String, Node<L>)>::empty(),
        r.warnings@ == Seq::<String>::empty(),
{
    Node::from_behavior(Behavior::parallel_batch_of(Behavior::User(logic)))
}

/// A flow: a node whose behavior is to traverse the graph hanging off a
/// designated start node. A flow is itself a node, so it can stand inside
/// another flow's graph.
pub struct Flow<L>(pub Node<L>);

impl<L: NodeLogic> Flow<L> {
    /// A flow that starts its traversal at `start`, with no parameters and
    /// no edges yet.
    pub fn new(start: Node<L>) -> (r: Flow<L>)
        ensures
            start_node(r.0.behavior) == Some(start),
            r.0.params@ == Map::<Seq<char>, crate::value::AbsValue>::empty(),
            r.0.successors@ == Seq::<(String, Node<L>)>::empty(),
            r.0.warnings@ == Seq::<String>::empty(),
    {
        Flow(Node::from_behavior(Behavior::Flow(Box::new(start))))
    }

    /// Replaces the start node. Must only be used while the flow is being
    /// built, before the graph is run.
    pub fn start(&mut self, start: Node<L>)
        ensures
            start_node(final(self).0.behavior) == Some(start),
            final(self).0.params == old(self).0.params,
            final(self).0.successors == old(self).0.successors,
            final(self).0.warnings == old(self).0.warnings,
    {
        self.0.behavior = Behavior::Flow(Box::new(start));
    }

    /// Replaces the flow node's parameters wholesale.
    pub fn set_params(&mut self, params: Dict)
        ensures
            final(self).0.params == params,
            final(self).0.behavior == old(self).0.behavior,
            final(self).0.successors == old(self).0.successors,
            final(self).0.warnings == old(self).0.warnings,
    {
        self.0.set_params(params);
    }

    /// Runs the flow node over its own parameters: one full traversal from
    /// the start node against `shared`.
    pub fn run(&self, shared: &mut Dict) -> (r: Option<String>)
        ensures
            ({
                let (lbl, sh) = node_step_model(self.0, self.0.params@, old(shared)@);
                opt_label_model(r) == lbl && final(shared)@ == sh
            }),
    {
        self.0.run(shared)
    }

    /// The flow as a graph vertex, for nesting inside a parent flow.
    pub fn into_node(self) -> (r: Node<L>)
        ensures
            r == self.0,
    {
        self.0
    }
}

/// A batch-flow: a node that drives one inner flow repeatedly over a list of
/// parameter mappings against one shared state.
pub struct BatchFlow<L>(pub Node<L>);

impl<L: NodeLogic> BatchFlow<L> {
    /// A batch-flow over `flow`. When the batch-flow node runs,
    /// `prep_logic`'s prepare stage produces the list of parameter mappings
    /// from the node's parameters and the shared state, and the flow runs
    /// once per entry, sequentially, against the one shared state. Each
    /// entry's mapping is joined with the flow's own baseline parameters,
    /// the baseline winning on key collisions. Its decide-next stage chooses
    /// no label: a batch-flow is a routing sink.
    pub fn new(flow: Flow<L>, prep_logic: L) -> (r: BatchFlow<L>)
        ensures
            batch_flow_parts(r.0.behavior) == Some((flow.0, prep_logic)),
            r.0.params@ == Map::<Seq<char>, crate::value::AbsValue>::empty(),
            r.0.successors@ == Seq::<(String, Node<L>)>::empty(),
            r.0.warnings@ == Seq::<String>::empty(),
    {
        BatchFlow(Node::from_behavior(Behavior::BatchFlow(Box::new(flow.0), prep_logic)))
    }

    /// Replaces the batch-flow node's parameters wholesale.
    pub fn set_params(&mut self, params: Dict)
        ensures
            final(self).0.params == params,
            final(self).0.behavior == old(self).0.behavior,
            final(self).0.successors == old(self).0.successors,
            final(self).0.warnings == old(self).0.warnings,
    {
        self.0.set_params(params);
    }

    /// Runs the batch-flow node over its own parameters.
    pub fn run(&self, shared: &mut Dict) -> (r: Option<String>)
        ensures
            ({
                let (lbl, sh) = node_step_model(self.0, self.0.params@, old(shared)@);
                opt_label_model(r) == lbl && final(shared)@ == sh
            }),
    {
        self.0.run(shared)
    }

    /// The batch-flow as a graph vertex, for nesting inside a parent flow.
    pub fn into_node(self) -> (r: Node<L>)
        ensures
            r == self.0,
    {
        self.0
    }
}

} // verus!
