//! The node execution contract and the graph engine built from it: behaviors,
//! nodes with labelled edges, flow traversal, and the batch variants of the
//! compute stage.

use vstd::prelude::*;

use crate::value::{AbsValue, Dict, Value};

verus! {

/// The model of a parameters or shared-state mapping.
pub type AbsDict = Map<Seq<char>, AbsValue>;

/// A user-authored behavior: the three stages every node runs in order.
///
/// Each executable stage carries a model spec function; an implementation
/// outside this crate is trusted to return what its models say, which is what
/// the engine's contracts are stated over.
pub trait NodeLogic: Sized {
    /// Model of [`prep`](Self::prep). An implementation that overrides
    /// `prep` must override this model to match.
    open spec fn prep_model(&self, params: AbsDict, shared: AbsDict) -> AbsValue {
        AbsValue::Null
    }

    /// Model of [`exec`](Self::exec). An implementation that overrides
    /// `exec` must override this model to match.
    open spec fn exec_model(&self, input: AbsValue) -> AbsValue {
        AbsValue::Null
    }

    /// Model of the action label [`post`](Self::post) chooses. An
    /// implementation that overrides `post` must override this model to
    /// match.
    open spec fn post_label_model(
        &self,
        shared: AbsDict,
        prep_res: AbsValue,
        exec_res: AbsValue,
    ) -> Option<Seq<char>> {
        None
    }

    /// Model of the shared state [`post`](Self::post) leaves behind. An
    /// implementation that overrides `post` must override this model to
    /// match.
    open spec fn post_shared_model(
        &self,
        shared: AbsDict,
        prep_res: AbsValue,
        exec_res: AbsValue,
    ) -> AbsDict {
        shared
    }

    /// The read-only transform run first, over the node's parameters and the
    /// run's shared state; by default a null value.
    fn prep(&self, params: &Dict, shared: &Dict) -> (r: Value)
        ensures
            r@ == self.prep_model(params@, shared@),
    ;

    /// The pure compute stage, a function of `prep`'s output alone; by
    /// default a null value.
    fn exec(&self, input: &Value) -> (r: Value)
        ensures
            r@ == self.exec_model(input@),
    ;

    /// The decide-next stage: may mutate the shared state and chooses an
    /// optional action label; no label means the node is terminal. By
    /// default it leaves the shared state alone and chooses none.
    fn post(&self, shared: &mut Dict, prep_res: &Value, exec_res: &Value) -> (r: Option<String>)
        ensures
            final(shared)@ == self.post_shared_model(old(shared)@, prep_res@, exec_res@),
            opt_label_model(r) == self.post_label_model(old(shared)@, prep_res@, exec_res@),
    ;
}

/// The behavior of a node: a user-authored [`NodeLogic`], one of the batch
/// decorators over an inner behavior, a flow traversal from a start node, or
/// a batch-flow driving one flow node over a list of parameter sets.
pub enum Behavior<L> {
    /// A user-authored behavior.
    User(L),
    /// Applies the wrapped behavior's compute stage to every element of a
    /// sequence, in order; prepare and decide-next delegate unchanged.
    Batch(Box<Behavior<L>>),
    /// Like [`Behavior::Batch`], with a maximum concurrency (second field,
    /// always positive) for schedulers that run elements in parallel; the
    /// result is ordered by input index regardless of completion order.
    ParallelBatch(Box<Behavior<L>>, usize),
    /// Traverses the graph hanging off the start node to completion.
    Flow(Box<Node<L>>),
    /// Runs the bound flow node once per entry of a list of parameter sets
    /// produced by the wrapped behavior's prepare stage, sequentially,
    /// against one shared state.
    BatchFlow(Box<Node<L>>, L),
}

/// A graph vertex: a behavior, the parameters of the next run, the labelled
/// edges to successor nodes, and the warnings recorded while building.
///
/// Edges own their target nodes, so a graph is a finite tree of values; a
/// node reached twice is reached as two copies.
pub struct Node<L> {
    /// What this node does when run.
    pub behavior: Behavior<L>,
    /// The parameters the next run reads; replaced wholesale, never merged.
    pub params: Dict,
    /// The labelled edges, searched front to back; the engine's builders keep
    /// at most one edge per label.
    pub successors: Vec<(String, Node<L>)>,
    /// One entry per edge registration that replaced an earlier edge: the
    /// label that was overwritten.
    pub warnings: Vec<String>,
}

/// The view of an optional action label.
pub open spec fn opt_label_model(r: Option<String>) -> Option<Seq<char>> {
    match r {
        Some(s) => Some(s@),
        None => None,
    }
}

/// The label a run reports: the one decide-next chose, or `"default"` when it
/// chose none.
pub open spec fn effective_label(l: Option<Seq<char>>) -> Seq<char> {
    match l {
        Some(s) => s,
        None => "default"@,
    }
}

/// The mapping a value holds, or the empty mapping for any other value.
pub open spec fn dict_of(v: AbsValue) -> AbsDict {
    match v {
        AbsValue::Object(m) => m,
        _ => Map::empty(),
    }
}

/// The text a value holds, or the empty text for any other value.
pub open spec fn text_of(v: AbsValue) -> Seq<char> {
    match v {
        AbsValue::Text(s) => s,
        _ => Seq::empty(),
    }
}

/// How a flow packages a (parameters, shared state) pair into one value.
pub open spec fn pack_pair_model(params: AbsDict, shared: AbsDict) -> AbsValue {
    AbsValue::List(seq![AbsValue::Object(params), AbsValue::Object(shared)])
}

/// Recovers a (parameters, shared state) pair; a malformed packaging reads as
/// two empty mappings, and a slot of the wrong shape as an empty mapping.
pub open spec fn unpack_pair_model(v: AbsValue) -> (AbsDict, AbsDict) {
    match v {
        AbsValue::List(items) => if items.len() == 2 {
            (dict_of(items[0]), dict_of(items[1]))
        } else {
            (Map::empty(), Map::empty())
        },
        _ => (Map::empty(), Map::empty()),
    }
}

/// How a flow packages its traversal result, a (label, shared state) pair.
pub open spec fn pack_result_model(label: Seq<char>, shared: AbsDict) -> AbsValue {
    AbsValue::List(seq![AbsValue::Text(label), AbsValue::Object(shared)])
}

/// Recovers a flow's (label, shared state) result. A malformed packaging
/// reads as the label `"default"` with `cur`, the caller's shared state,
/// unchanged; a slot of the wrong shape as empty text or an empty mapping.
pub open spec fn unpack_result_model(v: AbsValue, cur: AbsDict) -> (Seq<char>, AbsDict) {
    match v {
        AbsValue::List(items) => if items.len() == 2 {
            (text_of(items[0]), dict_of(items[1]))
        } else {
            ("default"@, cur)
        },
        _ => ("default"@, cur),
    }
}

/// The first edge bound to `label`, searched front to back.
pub open spec fn edge_lookup<L>(edges: Seq<(String, Node<L>)>, label: Seq<char>) -> Option<
    Node<L>,
>
    decreases edges.len(),
{
    if edges.len() == 0 {
        None
    } else if edges[0].0@ == label {
        Some(edges[0].1)
    } else {
        edge_lookup(edges.drop_first(), label)
    }
}

/// The mappings a sequence of values holds, if every element is a mapping;
/// otherwise nothing, and a batch-flow over the sequence runs no iteration.
pub open spec fn dicts_of(items: Seq<AbsValue>) -> Option<Seq<AbsDict>> {
    if forall|i: int| 0 <= i < items.len() ==> (#[trigger] items[i]) is Object {
        Some(Seq::new(items.len(), |i: int| dict_of(items[i])))
    } else {
        None
    }
}

/// Model of a behavior's prepare stage.
pub open spec fn beh_prep_model<L: NodeLogic>(
    b: Behavior<L>,
    params: AbsDict,
    shared: AbsDict,
) -> AbsValue
    decreases b, 2int, 0int,
{
    match b {
        Behavior::User(logic) => logic.prep_model(params, shared),
        Behavior::Batch(inner) => beh_prep_model(*inner, params, shared),
        Behavior::ParallelBatch(inner, _) => beh_prep_model(*inner, params, shared),
        Behavior::Flow(_) => pack_pair_model(params, shared),
        Behavior::BatchFlow(_, prep_logic) => AbsValue::List(
            seq![
                AbsValue::Object(shared),
                prep_logic.prep_model(params, shared),
            ],
        ),
    }
}

/// Model of a behavior's compute stage.
pub open spec fn beh_exec_model<L: NodeLogic>(b: Behavior<L>, input: AbsValue) -> AbsValue
    decreases b, 2int, 0int,
{
    match b {
        Behavior::User(logic) => logic.exec_model(input),
        Behavior::Batch(inner) => match input {
            AbsValue::List(items) => AbsValue::List(batch_map_model(*inner, items)),
            _ => AbsValue::Null,
        },
        Behavior::ParallelBatch(inner, _) => match input {
            AbsValue::List(items) => AbsValue::List(batch_map_model(*inner, items)),
            _ => AbsValue::Null,
        },
        Behavior::Flow(start) => {
            let (params, shared) = unpack_pair_model(input);
            let (label, shared2) = traverse_model(*start, params, shared);
            pack_result_model(label, shared2)
        },
        Behavior::BatchFlow(flow_node, _) => match input {
            AbsValue::List(items) => if items.len() == 2 {
                match dicts_of(list_items(items[1])) {
                    Some(entries) => AbsValue::Object(
                        batch_flow_runs_model(*flow_node, entries, dict_of(items[0])),
                    ),
                    None => AbsValue::Object(dict_of(items[0])),
                }
            } else {
                AbsValue::Null
            },
            _ => AbsValue::Null,
        },
    }
}

/// The elements a value holds, or no elements for a value that is not a
/// sequence.
pub open spec fn list_items(v: AbsValue) -> Seq<AbsValue> {
    match v {
        AbsValue::List(items) => items,
        _ => Seq::empty(),
    }
}

/// Model of the label a behavior's decide-next stage chooses.
pub open spec fn beh_post_label_model<L: NodeLogic>(
    b: Behavior<L>,
    shared: AbsDict,
    prep_res: AbsValue,
    exec_res: AbsValue,
) -> Option<Seq<char>>
    decreases b, 2int, 0int,
{
    match b {
        Behavior::User(logic) => logic.post_label_model(shared, prep_res, exec_res),
        Behavior::Batch(inner) => beh_post_label_model(*inner, shared, prep_res, exec_res),
        Behavior::ParallelBatch(inner, _) => beh_post_label_model(
            *inner,
            shared,
            prep_res,
            exec_res,
        ),
        Behavior::Flow(_) => Some(unpack_result_model(exec_res, shared).0),
        Behavior::BatchFlow(_, _) => None,
    }
}

/// Model of the shared state a behavior's decide-next stage leaves behind.
pub open spec fn beh_post_shared_model<L: NodeLogic>(
    b: Behavior<L>,
    shared: AbsDict,
    prep_res: AbsValue,
    exec_res: AbsValue,
) -> AbsDict
    decreases b, 2int, 0int,
{
    match b {
        Behavior::User(logic) => logic.post_shared_model(shared, prep_res, exec_res),
        Behavior::Batch(inner) => beh_post_shared_model(*inner, shared, prep_res, exec_res),
        Behavior::ParallelBatch(inner, _) => beh_post_shared_model(
            *inner,
            shared,
            prep_res,
            exec_res,
        ),
        Behavior::Flow(_) => unpack_result_model(exec_res, shared).1,
        Behavior::BatchFlow(_, _) => match exec_res {
            AbsValue::Object(m) => m,
            _ => shared,
        },
    }
}

/// Model of the compute stage of a batch decorator: the inner behavior's
/// compute applied to every element, in input order.
pub open spec fn batch_map_model<L: NodeLogic>(
    inner: Behavior<L>,
    items: Seq<AbsValue>,
) -> Seq<AbsValue>
    decreases inner, 2int, items.len(),
{
    if items.len() == 0 {
        Seq::empty()
    } else {
        batch_map_model(inner, items.drop_last()).push(beh_exec_model(inner, items.last()))
    }
}

/// Model of one full node run: prepare, compute, decide-next in that order,
/// over the given parameters and shared state. Yields the raw label and the
/// shared state decide-next leaves behind.
pub open spec fn node_step_model<L: NodeLogic>(
    node: Node<L>,
    params: AbsDict,
    shared: AbsDict,
) -> (Option<Seq<char>>, AbsDict)
    decreases node, 1int, 0int,
{
    let p = beh_prep_model(node.behavior, params, shared);
    let e = beh_exec_model(node.behavior, p);
    (
        beh_post_label_model(node.behavior, shared, p, e),
        beh_post_shared_model(node.behavior, shared, p, e),
    )
}

/// Model of a flow traversal from `node`: run the node with the flow's
/// parameters, substitute `"default"` for a missing label, follow the edge
/// registered under the label, and stop at a node that has none. Yields the
/// last label and the shared state as mutated up to that point.
pub open spec fn traverse_model<L: NodeLogic>(
    node: Node<L>,
    params: AbsDict,
    shared: AbsDict,
) -> (Seq<char>, AbsDict)
    decreases node, 2int, 0int,
{
    let (lbl_opt, shared2) = node_step_model(node, params, shared);
    let label = effective_label(lbl_opt);
    match edge_lookup(node.successors@, label) {
        Some(next) => {
            proof {
                lemma_edge_lookup_element(node.successors@, label);
                let i = choose|i: int|
                    0 <= i < node.successors@.len() && #[trigger] node.successors@[i].1 == next;
                assert(decreases_to!(node => node.successors));
                assert(decreases_to!(node.successors => node.successors@));
                assert(decreases_to!(node.successors@ => node.successors@[i]));
                assert(decreases_to!(node.successors@[i] => node.successors@[i].1));
                assert(decreases_to!(node => next));
            }
            traverse_model(next, params, shared2)
        },
        None => (label, shared2),
    }
}

/// A successful edge lookup returns the target of one of the edges.
pub proof fn lemma_edge_lookup_element<L>(edges: Seq<(String, Node<L>)>, label: Seq<char>)
    ensures
        edge_lookup(edges, label) matches Some(n) ==> exists|i: int|
            0 <= i < edges.len() && #[trigger] edges[i].1 == n,
    decreases edges.len(),
{
    if edges.len() > 0 && edges[0].0@ != label {
        lemma_edge_lookup_element(edges.drop_first(), label);
        if edge_lookup(edges, label) is Some {
            let n = edge_lookup(edges, label)->Some_0;
            let i = choose|i: int|
                0 <= i < edges.drop_first().len() && #[trigger] edges.drop_first()[i].1 == n;
            assert(edges[i + 1].1 == n);
        }
    }
}

/// The views of a sequence of recorded warning labels.
pub open spec fn labels_of(s: Seq<String>) -> Seq<Seq<char>> {
    s.map_values(|w: String| w@)
}

/// Looking a label up after replacing the first edge that holds it finds the
/// new target; every other label finds what it found before.
proof fn lemma_edge_lookup_update<L>(
    s: Seq<(String, Node<L>)>,
    i: int,
    k: String,
    n: Node<L>,
    lbl: Seq<char>,
)
    requires
        0 <= i < s.len(),
        k@ == s[i].0@,
        forall|j: int| 0 <= j < i ==> #[trigger] s[j].0@ != k@,
    ensures
        edge_lookup(s.update(i, (k, n)), lbl) == if lbl == k@ {
            Some(n)
        } else {
            edge_lookup(s, lbl)
        },
    decreases s.len(),
{
    let t = s.update(i, (k, n));
    assert(t.len() == s.len());
    if i == 0 {
        assert(t[0] == (k, n));
        if lbl != k@ {
            assert(t.drop_first() =~= s.drop_first());
        }
    } else {
        assert(t[0] == s[0]);
        assert(s[0].0@ != k@);
        assert(t.drop_first() =~= s.drop_first().update(i - 1, (k, n)));
        assert(s.drop_first()[i - 1] == s[i]);
        assert forall|j: int| 0 <= j < i - 1 implies #[trigger] s.drop_first()[j].0@ != k@ by {
            assert(s[j + 1].0@ != k@);
        }
        lemma_edge_lookup_update(s.drop_first(), i - 1, k, n, lbl);
    }
}

/// Looking a label up after appending an edge for a label no edge held finds
/// the new target under the new label and is unchanged under every other.
proof fn lemma_edge_lookup_push<L>(s: Seq<(String, Node<L>)>, k: String, n: Node<L>, lbl: Seq<char>)
    requires
        forall|j: int| 0 <= j < s.len() ==> #[trigger] s[j].0@ != k@,
    ensures
        edge_lookup(s.push((k, n)), lbl) == if lbl == k@ {
            Some(n)
        } else {
            edge_lookup(s, lbl)
        },
    decreases s.len(),
{
    let t = s.push((k, n));
    if s.len() == 0 {
        assert(t[0] == (k, n));
        if lbl != k@ {
            assert(t.drop_first() =~= Seq::<(String, Node<L>)>::empty());
        }
    } else {
        assert(t[0] == s[0]);
        assert(t.drop_first() =~= s.drop_first().push((k, n)));
        assert forall|j: int| 0 <= j < s.drop_first().len() implies #[trigger] s.drop_first()[j].0@
            != k@ by {
            assert(s[j + 1].0@ != k@);
        }
        lemma_edge_lookup_push(s.drop_first(), k, n, lbl);
        assert(s[0].0@ != k@);
    }
}

/// A first match at `i` (no earlier entry holds the label) is what the
/// lookup finds.
proof fn lemma_edge_lookup_at<L>(s: Seq<(String, Node<L>)>, lbl: Seq<char>, i: int)
    requires
        0 <= i < s.len(),
        s[i].0@ == lbl,
        forall|j: int| 0 <= j < i ==> #[trigger] s[j].0@ != lbl,
    ensures
        edge_lookup(s, lbl) == Some(s[i].1),
    decreases s.len(),
{
    if i > 0 {
        assert(s.drop_first()[i - 1] == s[i]);
        assert forall|j: int| 0 <= j < i - 1 implies #[trigger] s.drop_first()[j].0@ != lbl by {
            assert(s[j + 1].0@ != lbl);
        }
        lemma_edge_lookup_at(s.drop_first(), lbl, i - 1);
        assert(s[0].0@ != lbl);
    }
}

/// A label no edge holds is not found.
proof fn lemma_edge_lookup_none<L>(s: Seq<(String, Node<L>)>, lbl: Seq<char>)
    requires
        forall|j: int| 0 <= j < s.len() ==> #[trigger] s[j].0@ != lbl,
    ensures
        edge_lookup(s, lbl) is None,
    decreases s.len(),
{
    if s.len() > 0 {
        assert forall|j: int| 0 <= j < s.drop_first().len() implies #[trigger] s.drop_first()[j].0@
            != lbl by {
            assert(s[j + 1].0@ != lbl);
        }
        lemma_edge_lookup_none(s.drop_first(), lbl);
        assert(s[0].0@ != lbl);
    }
}

/// Model of a batch-flow's compute stage: run the flow node once per entry,
/// first to last, against one shared state that each iteration hands to the
/// next. Each iteration's parameters are the entry's mapping, with bindings
/// of the flow node's own baseline parameters winning on key collisions.
pub open spec fn batch_flow_runs_model<L: NodeLogic>(
    flow_node: Node<L>,
    entries: Seq<AbsDict>,
    shared: AbsDict,
) -> AbsDict
    decreases flow_node, 2int, entries.len(),
{
    if entries.len() == 0 {
        shared
    } else {
        let combined = entries.first().union_prefer_right(flow_node.params@);
        let (lbl_opt, shared2) = node_step_model(flow_node, combined, shared);
        batch_flow_runs_model(flow_node, entries.drop_first(), shared2)
    }
}

impl<L: NodeLogic> Node<L> {
    /// A node that runs the given user-authored behavior, with no parameters
    /// and no edges yet.
    pub fn new(behavior: L) -> (r: Node<L>)
        ensures
            r.behavior == Behavior::User(behavior),
            r.params@ == Map::<Seq<char>, AbsValue>::empty(),
            r.successors@ == Seq::<(String, Node<L>)>::empty(),
            r.warnings@ == Seq::<String>::empty(),
    {
        Node::from_behavior(Behavior::User(behavior))
    }

    /// A node that runs the given behavior, with no parameters and no edges
    /// yet.
    pub fn from_behavior(behavior: Behavior<L>) -> (r: Node<L>)
        ensures
            r.behavior == behavior,
            r.params@ == Map::<Seq<char>, AbsValue>::empty(),
            r.successors@ == Seq::<(String, Node<L>)>::empty(),
            r.warnings@ == Seq::<String>::empty(),
    {
        Node { behavior, params: Dict::new(), successors: Vec::new(), warnings: Vec::new() }
    }

    /// Replaces this node's parameters wholesale.
    pub fn set_params(&mut self, params: Dict)
        ensures
            final(self).params == params,
            final(self).behavior == old(self).behavior,
            final(self).successors == old(self).successors,
            final(self).warnings == old(self).warnings,
    {
        self.params = params;
    }

    /// Registers `node` as the successor under the label `"default"`, as
    /// [`next_on`](Self::next_on) does.
    pub fn next(self, node: Node<L>) -> (r: Node<L>)
        ensures
            r.behavior == self.behavior,
            r.params == self.params,
            edge_lookup(r.successors@, "default"@) == Some(node),
            forall|lbl: Seq<char>| lbl != "default"@ ==> #[trigger] edge_lookup(r.successors@, lbl)
                == edge_lookup(self.successors@, lbl),
            labels_of(r.warnings@) == if edge_lookup(self.successors@, "default"@) is Some {
                labels_of(self.warnings@).push("default"@)
            } else {
                labels_of(self.warnings@)
            },
    {
        self.next_on(node, "default")
    }

    /// Registers `node` as the successor under `action`. A second
    /// registration under the same label replaces the first, and the
    /// overwritten label is recorded as a warning.
    pub fn next_on(self, node: Node<L>, action: &str) -> (r: Node<L>)
        ensures
            r.behavior == self.behavior,
            r.params == self.params,
            edge_lookup(r.successors@, action@) == Some(node),
            forall|lbl: Seq<char>| lbl != action@ ==> #[trigger] edge_lookup(r.successors@, lbl)
                == edge_lookup(self.successors@, lbl),
            labels_of(r.warnings@) == if edge_lookup(self.successors@, action@) is Some {
                labels_of(self.warnings@).push(action@)
            } else {
                labels_of(self.warnings@)
            },
    {
        let mut this = self;
        let key: String = action.to_owned();
        let ghost s = this.successors@;
        let mut i: usize = 0;
        while i < this.successors.len()
            invariant
                this == (Node { successors: this.successors, ..self }),
                this.successors@ == s,
                s == self.successors@,
                0 <= i <= s.len(),
                forall|j: int| 0 <= j < i ==> #[trigger] s[j].0@ != key@,
                key@ == action@,
            decreases s.len() - i,
        {
            if this.successors[i].0 == key {
                let ghost k = key;
                let ghost idx = i as int;
                this.successors.set(i, (key, node));
                this.warnings.push(action.to_owned());
                proof {
                    assert(this.successors@ == s.update(idx, (k, node)));
                    assert forall|lbl: Seq<char>| #[trigger] edge_lookup(this.successors@, lbl)
                        == (if lbl == action@ {
                        Some(node)
                    } else {
                        edge_lookup(s, lbl)
                    }) by {
                        lemma_edge_lookup_update(s, idx, k, node, lbl);
                    }
                    lemma_edge_lookup_at(s, k@, idx);
                    assert(labels_of(this.warnings@) =~= labels_of(self.warnings@).push(action@));
                }
                return this;
            }
            i += 1;
        }
        this.successors.push((key, node));
        proof {
            let ghost k = (this.successors@.last()).0;
            assert(this.successors@ == s.push((k, node)));
            assert(k@ == action@);
            assert forall|lbl: Seq<char>| #[trigger] edge_lookup(this.successors@, lbl) == (if lbl
                == action@ {
                Some(node)
            } else {
                edge_lookup(s, lbl)
            }) by {
                lemma_edge_lookup_push(s, k, node, lbl);
            }
            lemma_edge_lookup_none(s, action@);
            assert(labels_of(this.warnings@) =~= labels_of(self.warnings@));
        }
        this
    }
}

impl<L: Clone> Clone for Behavior<L> {
    /// A deep copy: replicated graph fragments share no mutable state.
    fn clone(&self) -> (r: Behavior<L>)
        decreases *self,
    {
        match self {
            Behavior::User(l) => Behavior::User(l.clone()),
            Behavior::Batch(i) => Behavior::Batch(Box::new((**i).clone())),
            Behavior::ParallelBatch(i, c) => Behavior::ParallelBatch(Box::new((**i).clone()), *c),
            Behavior::Flow(n) => Behavior::Flow(Box::new((**n).clone())),
            Behavior::BatchFlow(n, l) => Behavior::BatchFlow(Box::new((**n).clone()), l.clone()),
        }
    }
}

impl<L: Clone> Clone for Node<L> {
    /// A deep copy: replicated graph fragments share no mutable state.
    fn clone(&self) -> (r: Node<L>)
        decreases *self,
    {
        let mut successors: Vec<(String, Node<L>)> = Vec::new();
        let mut i: usize = 0;
        while i < self.successors.len()
            invariant
                0 <= i <= self.successors@.len(),
            decreases self.successors@.len() - i,
        {
            proof {
                assert(decreases_to!(*self => self.successors));
                assert(decreases_to!(self.successors => self.successors@));
                assert(decreases_to!(self.successors@ => self.successors@[i as int]));
                assert(decreases_to!(self.successors@[i as int] => self.successors@[i as int].1));
            }
            let e = &self.successors[i];
            successors.push((e.0.clone(), e.1.clone()));
            i += 1;
        }
        Node {
            behavior: self.behavior.clone(),
            params: self.params.clone(),
            successors,
            warnings: self.warnings.clone(),
        }
    }
}

/// The literal label substituted when decide-next chooses none.
fn default_label() -> (r: String)
    ensures
        r@ == "default"@,
{
    "default".to_owned()
}

/// Packages a (parameters, shared state) pair into one value, as a flow's
/// prepare stage does.
fn encode_pair(params: &Dict, shared: &Dict) -> (r: Value)
    ensures
        r@ == pack_pair_model(params@, shared@),
{
    let items = vec![Value::Object(params.clone()), Value::Object(shared.clone())];
    let r = Value::List(items);
    proof {
        let s = (r->List_0)@;
        crate::value::lemma_list_model(s);
        assert(crate::value::list_model(s)[0] == s[0]@);
        assert(crate::value::list_model(s)[1] == s[1]@);
        assert(crate::value::list_model(s) =~= seq![s[0]@, s[1]@]);
    }
    r
}

/// Recovers a (parameters, shared state) pair from a packaged value; a
/// malformed packaging yields two empty mappings.
fn decode_pair(v: &Value) -> (r: (Dict, Dict))
    ensures
        r.0@ == unpack_pair_model(v@).0,
        r.1@ == unpack_pair_model(v@).1,
{
    match v {
        Value::List(items) => {
            if items.len() == 2 {
                proof {
                    crate::value::lemma_list_model(items@);
                    assert(crate::value::list_model(items@)[0] == items@[0]@);
                    assert(crate::value::list_model(items@)[1] == items@[1]@);
                }
                let p = match &items[0] {
                    Value::Object(d) => d.clone(),
                    _ => Dict::new(),
                };
                let s = match &items[1] {
                    Value::Object(d) => d.clone(),
                    _ => Dict::new(),
                };
                (p, s)
            } else {
                proof {
                    crate::value::lemma_list_model(items@);
                }
                (Dict::new(), Dict::new())
            }
        },
        _ => (Dict::new(), Dict::new()),
    }
}

/// Packages a flow's (label, shared state) result into one value.
fn encode_result(label: String, shared: Dict) -> (r: Value)
    ensures
        r@ == pack_result_model(label@, shared@),
{
    let items = vec![Value::Text(label), Value::Object(shared)];
    let r = Value::List(items);
    proof {
        let s = (r->List_0)@;
        crate::value::lemma_list_model(s);
        assert(crate::value::list_model(s)[0] == s[0]@);
        assert(crate::value::list_model(s)[1] == s[1]@);
        assert(crate::value::list_model(s) =~= seq![s[0]@, s[1]@]);
    }
    r
}

/// Runs a behavior's prepare stage.
fn beh_prep<L: NodeLogic>(b: &Behavior<L>, params: &Dict, shared: &Dict) -> (r: Value)
    ensures
        r@ == beh_prep_model(*b, params@, shared@),
    decreases *b,
{
    match b {
        Behavior::User(logic) => logic.prep(params, shared),
        Behavior::Batch(inner) => beh_prep(inner, params, shared),
        Behavior::ParallelBatch(inner, _) => beh_prep(inner, params, shared),
        Behavior::Flow(_) => encode_pair(params, shared),
        Behavior::BatchFlow(_, prep_logic) => {
            let inner_v = prep_logic.prep(params, shared);
            let items = vec![Value::Object(shared.clone()), inner_v];
            let r = Value::List(items);
            proof {
                let s = (r->List_0)@;
                crate::value::lemma_list_model(s);
                assert(crate::value::list_model(s)[0] == s[0]@);
                assert(crate::value::list_model(s)[1] == s[1]@);
                assert(crate::value::list_model(s) =~= seq![s[0]@, s[1]@]);
            }
            r
        },
    }
}

/// Runs a behavior's decide-next stage.
fn beh_post<L: NodeLogic>(
    b: &Behavior<L>,
    shared: &mut Dict,
    prep_res: &Value,
    exec_res: &Value,
) -> (r: Option<String>)
    ensures
        final(shared)@ == beh_post_shared_model(*b, old(shared)@, prep_res@, exec_res@),
        opt_label_model(r) == beh_post_label_model(*b, old(shared)@, prep_res@, exec_res@),
    decreases *b,
{
    match b {
        Behavior::User(logic) => logic.post(shared, prep_res, exec_res),
        Behavior::Batch(inner) => beh_post(inner, shared, prep_res, exec_res),
        Behavior::ParallelBatch(inner, _) => beh_post(inner, shared, prep_res, exec_res),
        Behavior::Flow(_) => match exec_res {
            Value::List(items) => {
                if items.len() == 2 {
                    proof {
                        crate::value::lemma_list_model(items@);
                        assert(crate::value::list_model(items@)[0] == items@[0]@);
                        assert(crate::value::list_model(items@)[1] == items@[1]@);
                    }
                    let label = match &items[0] {
                        Value::Text(s) => s.clone(),
                        _ => String::new(),
                    };
                    let sh = match &items[1] {
                        Value::Object(d) => d.clone(),
                        _ => Dict::new(),
                    };
                    *shared = sh;
                    Some(label)
                } else {
                    proof {
                        crate::value::lemma_list_model(items@);
                    }
                    Some(default_label())
                }
            },
            _ => Some(default_label()),
        },
        Behavior::BatchFlow(_, _) => match exec_res {
            Value::Object(m) => {
                *shared = m.clone();
                None
            },
            _ => None,
        },
    }
}

/// `batch_map_model` applies the inner compute model pointwise and keeps the
/// order.
pub proof fn lemma_batch_map_model<L: NodeLogic>(inner: Behavior<L>, items: Seq<AbsValue>)
    ensures
        batch_map_model(inner, items).len() == items.len(),
        forall|i: int| 0 <= i < items.len() ==> batch_map_model(inner, items)[i] == beh_exec_model(
            inner,
            #[trigger] items[i],
        ),
    decreases items.len(),
{
    if items.len() > 0 {
        lemma_batch_map_model(inner, items.drop_last());
        assert forall|i: int| 0 <= i < items.len() implies batch_map_model(inner, items)[i]
            == beh_exec_model(inner, #[trigger] items[i]) by {
            if i < items.len() - 1 {
                assert(items.drop_last()[i] == items[i]);
                assert(batch_map_model(inner, items)[i] == batch_map_model(
                    inner,
                    items.drop_last(),
                )[i]);
            } else {
                assert(items[i] == items.last());
            }
        }
    }
}

/// The models of a sequence of mappings, element by element.
pub open spec fn dict_views(s: Seq<Dict>) -> Seq<AbsDict> {
    s.map_values(|d: Dict| d@)
}

/// Recovers a list of parameter mappings from a value, as a batch-flow's
/// compute stage reads its entry list: every element must be a mapping, and
/// a value that is not a sequence reads as no entries at all.
fn decode_dict_list(v: &Value) -> (r: Option<Vec<Dict>>)
    ensures
        match r {
            Some(ds) => ({
                &&& dicts_of(list_items(v@)) matches Some(m)
                &&& ds@.len() == m.len()
                &&& forall|i: int| 0 <= i < m.len() ==> #[trigger] ds@[i]@ == m[i]
            }),
            None => dicts_of(list_items(v@)) is None,
        },
{
    match v {
        Value::List(items) => {
            proof {
                crate::value::lemma_list_model(items@);
            }
            let ghost m = crate::value::list_model(items@);
            let mut ds: Vec<Dict> = Vec::new();
            let mut i: usize = 0;
            while i < items.len()
                invariant
                    0 <= i <= items@.len(),
                    m == crate::value::list_model(items@),
                    list_items(v@) == m,
                    m.len() == items@.len(),
                    forall|j: int| 0 <= j < items@.len() ==> m[j] == #[trigger] items@[j]@,
                    ds@.len() == i,
                    forall|j: int| 0 <= j < i ==> (#[trigger] m[j]) is Object,
                    forall|j: int| 0 <= j < i ==> #[trigger] ds@[j]@ == dict_of(m[j]),
                decreases items@.len() - i,
            {
                let item = &items[i];
                proof {
                    assert(*item == items@[i as int]);
                    assert(m[i as int] == items@[i as int]@);
                }
                match item {
                    Value::Object(d) => {
                        proof {
                            assert(items@[i as int]@ == AbsValue::Object(d@));
                        }
                        ds.push(d.clone());
                    },
                    _ => {
                        proof {
                            assert(!(m[i as int] is Object));
                            assert(list_items(v@) == m);
                            assert(!((list_items(v@)[i as int]) is Object));
                            assert(dicts_of(list_items(v@)) is None);
                        }
                        return None;
                    },
                }
                i += 1;
            }
            proof {
                assert(dicts_of(m) matches Some(mm) && mm =~= dicts_of(m)->Some_0);
            }
            Some(ds)
        },
        _ => {
            proof {
                assert(list_items(v@) =~= Seq::<AbsValue>::empty());
                assert(dicts_of(list_items(v@)) is Some);
                assert(dicts_of(list_items(v@))->Some_0 =~= Seq::<AbsDict>::empty());
            }
            Some(Vec::new())
        },
    }
}

/// Finds the successor node registered under `label`, if any.
fn find_succ<'a, L: NodeLogic>(node: &'a Node<L>, label: &String) -> (r: Option<&'a Node<L>>)
    ensures
        match r {
            Some(n) => edge_lookup(node.successors@, label@) == Some(*n) && exists|i: int|
                0 <= i < node.successors@.len() && *n == #[trigger] node.successors@[i].1,
            None => edge_lookup(node.successors@, label@) is None,
        },
{
    let mut i: usize = 0;
    while i < node.successors.len()
        invariant
            0 <= i <= node.successors@.len(),
            forall|j: int| 0 <= j < i ==> #[trigger] node.successors@[j].0@ != label@,
        decreases node.successors@.len() - i,
    {
        if node.successors[i].0 == *label {
            proof {
                lemma_edge_lookup_at(node.successors@, label@, i as int);
            }
            return Some(&node.successors[i].1);
        }
        i += 1;
    }
    proof {
        lemma_edge_lookup_none(node.successors@, label@);
    }
    None
}

impl<L: NodeLogic> Node<L> {
    /// Runs this node's prepare, compute and decide-next stages in that
    /// order, over the given parameters, mutating the shared state as
    /// decide-next directs; reports the label decide-next chose.
    pub fn run_with(&self, params: &Dict, shared: &mut Dict) -> (r: Option<String>)
        ensures
            ({
                let (lbl, sh) = node_step_model(*self, params@, old(shared)@);
                opt_label_model(r) == lbl && final(shared)@ == sh
            }),
        decreases *self, 1int, 0int,
    {
        let p = beh_prep(&self.behavior, params, shared);
        let e = beh_exec(&self.behavior, &p);
        beh_post(&self.behavior, shared, &p, &e)
    }

    /// Runs this node over its own parameters, as
    /// [`run_with`](Self::run_with) does.
    pub fn run(&self, shared: &mut Dict) -> (r: Option<String>)
        ensures
            ({
                let (lbl, sh) = node_step_model(*self, self.params@, old(shared)@);
                opt_label_model(r) == lbl && final(shared)@ == sh
            }),
    {
        self.run_with(&self.params, shared)
    }
}

/// Runs a behavior's compute stage.
fn beh_exec<L: NodeLogic>(b: &Behavior<L>, input: &Value) -> (r: Value)
    ensures
        r@ == beh_exec_model(*b, input@),
    decreases *b, 2int, 0int,
{
    match b {
        Behavior::User(logic) => logic.exec(input),
        Behavior::Batch(inner) => match input {
            Value::List(items) => {
                let out = batch_exec(inner, items);
                proof {
                    lemma_batch_exec_view(**inner, items@, out@);
                }
                Value::List(out)
            },
            _ => Value::Null,
        },
        Behavior::ParallelBatch(inner, _) => match input {
            Value::List(items) => {
                let out = batch_exec(inner, items);
                proof {
                    lemma_batch_exec_view(**inner, items@, out@);
                }
                Value::List(out)
            },
            _ => Value::Null,
        },
        Behavior::Flow(start) => {
            let (p, mut sh) = decode_pair(input);
            let label = traverse(start, &p, &mut sh);
            encode_result(label, sh)
        },
        Behavior::BatchFlow(flow_node, _) => match input {
            Value::List(items) => {
                if items.len() == 2 {
                    proof {
                        crate::value::lemma_list_model(items@);
                        assert(crate::value::list_model(items@)[0] == items@[0]@);
                        assert(crate::value::list_model(items@)[1] == items@[1]@);
                    }
                    let sh = match &items[0] {
                        Value::Object(d) => d.clone(),
                        _ => Dict::new(),
                    };
                    match decode_dict_list(&items[1]) {
                        Some(entries) => {
                            let out = batch_flow_exec(flow_node, &entries, sh);
                            proof {
                                let m = dicts_of(list_items(items@[1]@))->Some_0;
                                assert(dict_views(entries@) =~= m);
                            }
                            Value::Object(out)
                        },
                        None => Value::Object(sh),
                    }
                } else {
                    proof {
                        crate::value::lemma_list_model(items@);
                    }
                    Value::Null
                }
            },
            _ => Value::Null,
        },
    }
}

/// The elementwise results of a batch compute make the batch map model.
proof fn lemma_batch_exec_view<L: NodeLogic>(inner: Behavior<L>, items: Seq<Value>, out: Seq<Value>)
    requires
        out.len() == items.len(),
        forall|i: int| 0 <= i < items.len() ==> #[trigger] out[i]@ == beh_exec_model(
            inner,
            items[i]@,
        ),
    ensures
        crate::value::list_model(out) == batch_map_model(inner, crate::value::list_model(items)),
{
    crate::value::lemma_list_model(out);
    crate::value::lemma_list_model(items);
    lemma_batch_map_model(inner, crate::value::list_model(items));
    assert forall|i: int| 0 <= i < out.len() implies crate::value::list_model(out)[i]
        == batch_map_model(inner, crate::value::list_model(items))[i] by {
        assert(out[i]@ == beh_exec_model(inner, items[i]@));
        assert(crate::value::list_model(items)[i] == items[i]@);
    }
    assert(crate::value::list_model(out) =~= batch_map_model(
        inner,
        crate::value::list_model(items),
    ));
}

/// Applies a behavior's compute stage to every element, in input order.
fn batch_exec<L: NodeLogic>(inner: &Behavior<L>, items: &Vec<Value>) -> (r: Vec<Value>)
    ensures
        r@.len() == items@.len(),
        forall|i: int| 0 <= i < items@.len() ==> #[trigger] r@[i]@ == beh_exec_model(
            *inner,
            items@[i]@,
        ),
    decreases *inner, 2int, items@.len() as int,
{
    let mut r: Vec<Value> = Vec::new();
    let mut i: usize = 0;
    while i < items.len()
        invariant
            0 <= i <= items@.len(),
            r@.len() == i,
            forall|j: int| 0 <= j < i ==> #[trigger] r@[j]@ == beh_exec_model(*inner, items@[j]@),
        decreases items@.len() - i,
    {
        let v = beh_exec(inner, &items[i]);
        r.push(v);
        i += 1;
    }
    r
}

/// Runs the flow node once per entry, first to last, against one shared
/// state handed from each iteration to the next.
fn batch_flow_exec<L: NodeLogic>(flow_node: &Node<L>, entries: &Vec<Dict>, shared: Dict) -> (r:
    Dict)
    ensures
        r@ == batch_flow_runs_model(*flow_node, dict_views(entries@), shared@),
    decreases *flow_node, 2int, entries@.len() as int,
{
    let ghost views = dict_views(entries@);
    let ghost target = batch_flow_runs_model(*flow_node, views, shared@);
    let mut sh = shared;
    let mut i: usize = 0;
    proof {
        assert(views.skip(0int) =~= views);
    }
    while i < entries.len()
        invariant
            0 <= i <= entries@.len(),
            views == dict_views(entries@),
            views.len() == entries@.len(),
            batch_flow_runs_model(*flow_node, views.skip(i as int), sh@) == target,
        decreases entries@.len() - i,
    {
        let combined = entries[i].extended_with(&flow_node.params);
        let lbl = flow_node.run_with(&combined, &mut sh);
        proof {
            let rest = views.skip(i as int);
            assert(rest.first() == views[i as int]);
            assert(views[i as int] == entries@[i as int]@);
            assert(rest.drop_first() =~= views.skip(i + 1 as int));
        }
        i += 1;
    }
    proof {
        assert(views.skip(entries@.len() as int) =~= Seq::<AbsDict>::empty());
    }
    sh
}

/// Traverses the graph from `node`: run the node, substitute `"default"` for
/// a missing label, follow the matching edge, stop where none matches.
fn traverse<L: NodeLogic>(node: &Node<L>, params: &Dict, shared: &mut Dict) -> (r: String)
    ensures
        ({
            let (lbl, sh) = traverse_model(*node, params@, old(shared)@);
            r@ == lbl && final(shared)@ == sh
        }),
    decreases *node, 2int, 0int,
{
    let lbl_opt = node.run_with(params, shared);
    let label = match lbl_opt {
        Some(s) => s,
        None => default_label(),
    };
    match find_succ(node, &label) {
        Some(next) => {
            proof {
                let i = choose|i: int|
                    0 <= i < node.successors@.len() && *next == #[trigger] node.successors@[i].1;
                assert(decreases_to!(node.successors@[i] => node.successors@[i].1));
                assert(decreases_to!(node.successors@ => node.successors@[i]));
                assert(decreases_to!(node.successors => node.successors@));
                assert(decreases_to!(*node => node.successors));
                assert(decreases_to!(*node => *next));
            }
            traverse(next, params, shared)
        },
        None => label,
    }
}

} // verus!
