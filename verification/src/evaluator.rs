//! Evaluation of a node graph into the scene that its root asks for.
//!
//! The evaluator pulls values from the root: the value of an input comes
//! from the output it is connected to, the value of an output from the node
//! that owns it, and a node is evaluated once, when the first of its outputs
//! is asked for. A node that is asked for while it is being evaluated lies
//! on a cycle; the evaluation then ends without a scene.

use std::collections::HashMap;
use vstd::prelude::*;
use crate::graph::{Graph, GraphState, InputId, Node, NodeId, NodeTemplate, OutputId, Parts};
use crate::node::CSGNode;
use crate::template::{CSGNodeTemplateTrait, InputValues};
use crate::value::ValueType;

verus! {

broadcast use vstd::std_specs::hash::group_hash_axioms;

/// How far the evaluation of a node has come.
#[derive(Debug, Clone, Copy, PartialEq, Eq, Structural)]
enum Progress {
    /// Not asked for yet.
    Pending,
    /// Asked for, and waiting for its inputs.
    Visiting,
    /// Evaluated; its output is in the cache.
    Done,
}

/// A node was asked for while it was being evaluated.
#[derive(Debug, Clone, Copy, PartialEq, Eq, Structural)]
struct CycleError;

/// Number of nodes that have not been asked for.
spec fn pending(progress: Seq<Progress>) -> nat
    decreases progress.len(),
{
    if progress.len() == 0 {
        0
    } else {
        pending(progress.drop_last()) + if progress.last() is Pending {
            1nat
        } else {
            0nat
        }
    }
}

/// Taking a node out of the pending ones leaves one less of them; any
/// other step of a node that is not pending leaves as many.
proof fn lemma_pending_update(progress: Seq<Progress>, n: int, to: Progress)
    requires
        0 <= n < progress.len(),
        !(to is Pending),
    ensures
        pending(progress.update(n, to)) + (if progress[n] is Pending {
            1nat
        } else {
            0nat
        }) == pending(progress),
    decreases progress.len(),
{
    let updated = progress.update(n, to);
    if n == progress.len() - 1 {
        assert(updated.drop_last() =~= progress.drop_last());
    } else {
        assert(updated.drop_last() =~= progress.drop_last().update(n, to));
        lemma_pending_update(progress.drop_last(), n, to);
    }
}

/// What a step keeps of the marks on the nodes: a node that is done stays
/// done, and the nodes that are being evaluated stay the same.
spec fn marks_kept(before: Seq<Progress>, after: Seq<Progress>) -> bool {
    &&& after.len() == before.len()
    &&& pending(after) <= pending(before)
    &&& forall|n: int|
        0 <= n < before.len() ==> {
            &&& (#[trigger] before[n]) is Done ==> after[n] is Done
            &&& before[n] is Visiting <==> after[n] is Visiting
        }
}

/// The marks after the evaluation of node `n`, which was pending before
/// it, keep what the marks before it held.
proof fn lemma_marks_after_node(
    old: Seq<Progress>,
    started: Seq<Progress>,
    before: Seq<Progress>,
    after: Seq<Progress>,
    n: int,
)
    requires
        0 <= n < old.len(),
        old[n] is Pending,
        started == old.update(n, Progress::Visiting),
        marks_kept(started, before),
        after == before.update(n, Progress::Done),
    ensures
        marks_kept(old, after),
{
    lemma_pending_update(old, n, Progress::Visiting);
    assert(started[n] is Visiting);
    lemma_pending_update(before, n, Progress::Done);
    assert forall|x: int| 0 <= x < old.len() implies {
        &&& (#[trigger] old[x]) is Done ==> after[x] is Done
        &&& old[x] is Visiting <==> after[x] is Visiting
    } by {
        assert(started[x] is Done ==> before[x] is Done);
        assert(started[x] is Visiting <==> before[x] is Visiting);
    }
}

/// Whether every node of `log` stands behind the nodes that feed it.
pub open spec fn feeders_first(graph: Parts, log: Seq<NodeId>) -> bool {
    forall|j: int, m: int|
        0 <= j < log.len() && #[trigger] graph.feeds(m, log[j] as int) ==> exists|i: int|
            0 <= i < j && #[trigger] log[i] == m
}

impl Parts {
    /// Whatever fuel settles `x` settles `n` too.
    spec fn needs(self, x: int, n: int) -> bool {
        forall|f: nat| #[trigger] self.settles(x, f) ==> self.settles(n, f)
    }

    /// Whatever fuel settles `x` is more than some fuel that settles `m`.
    spec fn needs_less(self, x: int, m: int) -> bool {
        forall|f: nat| #[trigger] self.settles(x, f) ==> f > 0 && self.settles(m, (f - 1) as nat)
    }

    /// No fuel settles `n`: a cycle lies upstream of it, or it is on one.
    spec fn never_settles(self, n: int) -> bool {
        forall|f: nat| !#[trigger] self.settles(n, f)
    }

    /// Input `i` is among the inputs that node `n` lists.
    spec fn lists(self, n: int, i: int) -> bool {
        exists|k: int| 0 <= k < self.nodes[n].inputs@.len() && #[trigger] self.input_of(n, k) == i
    }

    /// The first `count` inputs of `n` lead, where they are connected, to
    /// nodes that `fuel` settles.
    spec fn inputs_settle(self, n: int, count: int, fuel: nat) -> bool {
        forall|k: int|
            0 <= k < count ==> (#[trigger] self.connections[self.input_of(n, k)] matches Some(o)
                ==> self.settles(self.owner(o as int), fuel))
    }

    /// Inputs that lead to settled nodes keep their values when there is
    /// more fuel.
    proof fn lemma_inputs_stable(self, n: int, count: nat, fuel: nat, more: nat)
        requires
            count <= self.nodes[n].inputs@.len(),
            fuel <= more,
            self.inputs_settle(n, count as int, fuel),
        ensures
            self.resolved(n, more + 1, count) == self.resolved(n, fuel + 1, count),
        decreases count,
    {
        if count > 0 {
            self.lemma_inputs_stable(n, (count - 1) as nat, fuel, more);
            let i = self.input_of(n, count - 1);
            if let Some(o) = self.connections[self.input_of(n, count - 1)] {
                let m = self.owner(o as int);
                self.lemma_value_settled(m, fuel, more);
                assert(self.output_value(o as int, more + 1) == self.node_value(m, more));
                assert(self.output_value(o as int, fuel + 1) == self.node_value(m, fuel));
            }
            assert(self.input_value(i, more + 1) == self.input_value(i, fuel + 1));
        }
    }

    /// The nodes evaluated once input `i` has its value, where `seen` were
    /// the nodes evaluated before.
    spec fn asked(self, i: int, seen: Seq<NodeId>, fuel: nat) -> Seq<NodeId> {
        match self.connections[i] {
            Some(o) => self.fetched(o as int, seen, fuel),
            None => seen,
        }
    }

    /// The nodes evaluated once output `o` has its value, where `seen`
    /// were the nodes evaluated before.
    spec fn fetched(self, o: int, seen: Seq<NodeId>, fuel: nat) -> Seq<NodeId> {
        if seen.contains(self.owner(o) as usize) {
            seen
        } else {
            self.visit(self.owner(o), seen, fuel)
        }
    }

    /// Inputs that lead to settled nodes have the same nodes evaluated
    /// when there is more fuel.
    proof fn lemma_visits_stable(self, n: int, seen: Seq<NodeId>, count: nat, fuel: nat, more: nat)
        requires
            count <= self.nodes[n].inputs@.len(),
            fuel <= more,
            self.inputs_settle(n, count as int, fuel),
        ensures
            self.visit_inputs(n, seen, more + 1, count) == self.visit_inputs(
                n,
                seen,
                fuel + 1,
                count,
            ),
        decreases count,
    {
        if count > 0 {
            self.lemma_visits_stable(n, seen, (count - 1) as nat, fuel, more);
            let before = self.visit_inputs(n, seen, fuel + 1, (count - 1) as nat);
            if let Some(o) = self.connections[self.input_of(n, count - 1)] {
                self.lemma_visit_settled(self.owner(o as int), before, fuel, more);
            }
        }
    }

    /// A node whose connected inputs all lead to nodes that `fuel` settles
    /// settles with one more.
    proof fn lemma_settles_above(self, n: int, fuel: nat)
        requires
            self.inputs_settle(n, self.nodes[n].inputs@.len() as int, fuel),
        ensures
            self.settles(n, fuel + 1),
    {
        assert forall|k: int| 0 <= k < self.nodes[n].inputs@.len() implies (
        #[trigger] self.connections[self.input_of(n, k)] matches Some(o) ==> fuel + 1 > 0
            && self.settles(self.owner(o as int), fuel)) by {}
    }

    /// A node with an input that leads to a node which never settles never
    /// settles.
    proof fn lemma_blocked(self, n: int, m: int)
        requires
            self.feeds(m, n),
            self.never_settles(m),
        ensures
            self.never_settles(n),
    {
        let k = self.lemma_feeds_at(m, n);
        assert forall|f: nat| !#[trigger] self.settles(n, f) by {
            if self.settles(n, f) {
                assert(self.connections[self.input_of(n, k)] is Some);
                assert(self.settles(m, (f - 1) as nat));
            }
        }
    }

    /// The place of an input of `from` that leads to `to`.
    proof fn lemma_feeds_at(self, to: int, from: int) -> (k: int)
        requires
            self.feeds(to, from),
        ensures
            0 <= k < self.nodes[from].inputs@.len(),
            self.connections[self.input_of(from, k)] matches Some(o) && self.owner(o as int) == to,
    {
        choose|k: int|
            0 <= k < self.nodes[from].inputs@.len() && (
            #[trigger] self.connections[self.input_of(from, k)] matches Some(o) && self.owner(
                o as int,
            ) == to)
    }

    /// A socket that `find` gives is one of the sockets searched.
    proof fn lemma_find_is_listed(sockets: Seq<(String, usize)>, name: Seq<char>)
        requires
            Node::find(sockets, name) is Some,
        ensures
            exists|k: int|
                0 <= k < sockets.len() && (#[trigger] sockets[k]).1 == Node::find(
                    sockets,
                    name,
                ).unwrap(),
        decreases sockets.len(),
    {
        if sockets[0].0@ == name {
            assert(sockets[0].1 == Node::find(sockets, name).unwrap());
        } else {
            let rest = sockets.drop_first();
            Self::lemma_find_is_listed(rest, name);
            let k = choose|k: int|
                0 <= k < rest.len() && (#[trigger] rest[k]).1 == Node::find(rest, name).unwrap();
            assert(sockets[k + 1] == rest[k]);
        }
    }
}

/// One evaluation of a graph: the values found so far.
struct Evaluator<'a> {
    graph: &'a Graph,
    /// The value on each output whose node has been evaluated; `None` where
    /// the node gave nothing.
    output_cache: HashMap<OutputId, Option<ValueType>>,
    /// For each node, how far its evaluation has come.
    progress: Vec<Progress>,
    /// The nodes whose template has been evaluated, in that order.
    evaluated: Vec<NodeId>,
    /// A fuel that settles every node evaluated so far.
    fuel: Ghost<nat>,
    /// The node that the evaluation started from.
    root: Ghost<int>,
}

impl<'a> Evaluator<'a> {
    /// Every cached value is the value of its output, whose node is done.
    spec fn cache_is_right(&self) -> bool {
        let g = self.graph@;
        forall|o: usize| #[trigger]
            self.output_cache@.contains_key(o) ==> {
                &&& o < g.outputs.len()
                &&& self.progress@[g.owner(o as int)] is Done
                &&& self.output_cache@[o] == g.node_value(g.owner(o as int), self.fuel@)
            }
    }

    /// Every node that is done settles, has its one output cached, and is
    /// in the log.
    spec fn done_is_right(&self) -> bool {
        let g = self.graph@;
        forall|n: int|
            0 <= n < g.nodes.len() && #[trigger] self.progress@[n] is Done ==> {
                &&& g.settles(n, self.fuel@)
                &&& g.nodes[n].outputs@.len() == 1
                &&& self.output_cache@.contains_key(g.nodes[n].outputs@[0].1)
                &&& self.evaluated@.contains(n as usize)
            }
    }

    /// The log holds nodes that are done, each once.
    spec fn log_is_right(&self) -> bool {
        &&& self.evaluated@.no_duplicates()
        &&& forall|j: int|
            0 <= j < self.evaluated@.len() ==> (#[trigger] self.evaluated@[j])
                < self.graph@.nodes.len() && self.progress@[self.evaluated@[j] as int] is Done
    }

    /// Whatever feeds a node of the log stands before it in the log.
    spec fn log_is_ordered(&self) -> bool {
        feeders_first(self.graph@, self.evaluated@)
    }

    /// Every node that has been asked for lies upstream of the root.
    spec fn asked_is_upstream(&self) -> bool {
        forall|n: int|
            0 <= n < self.graph@.nodes.len() && !(#[trigger] self.progress@[n] is Pending)
                ==> self.graph@.upstream(self.root@, n)
    }

    /// Whatever feeds a node that is done is done.
    spec fn done_is_closed(&self) -> bool {
        forall|n: int, m: int|
            0 <= n < self.graph@.nodes.len() && self.progress@[n] is Done
                && #[trigger] self.graph@.feeds(m, n) ==> self.progress@[m] is Done
    }

    /// What holds of an evaluator between any two steps.
    spec fn inv(&self) -> bool {
        &&& self.graph@.well_formed()
        &&& self.progress@.len() == self.graph@.nodes.len()
        &&& self.cache_is_right()
        &&& self.done_is_right()
        &&& self.log_is_right()
        &&& self.log_is_ordered()
        &&& self.asked_is_upstream()
        &&& self.done_is_closed()
    }

    /// The node that input `input_id` belongs to.
    spec fn node_of(&self, input_id: InputId) -> int {
        self.graph@.inputs[input_id as int].node as int
    }

    /// Node `n` is the one that the evaluation started from, or one that is
    /// being evaluated.
    spec fn is_open(&self, n: int) -> bool {
        n == self.root@ || self.progress@[n] is Visiting
    }

    /// Every node that is being evaluated needs `n`.
    spec fn waiting_for(&self, n: int) -> bool {
        forall|x: int|
            0 <= x < self.progress@.len() && #[trigger] self.progress@[x] is Visiting
                ==> self.graph@.needs(x, n)
    }

    /// Every node that is being evaluated needs `m` with less fuel.
    spec fn waiting_below(&self, m: int) -> bool {
        forall|x: int|
            0 <= x < self.progress@.len() && #[trigger] self.progress@[x] is Visiting
                ==> self.graph@.needs_less(x, m)
    }

    /// The first `count` inputs of `n` lead, where they are connected, to
    /// nodes that are done.
    spec fn inputs_done(&self, n: int, count: int) -> bool {
        forall|k: int|
            0 <= k < count ==> (
            #[trigger] self.graph@.connections[self.graph@.input_of(n, k)] matches Some(o)
                ==> self.progress@[self.graph@.owner(o as int)] is Done)
    }

    /// What a step from `self` to `after` keeps: the graph, the root, the
    /// nodes that are done, and the nodes that are being evaluated. Fuel
    /// never shrinks.
    spec fn advanced(&self, after: &Self) -> bool {
        &&& after.graph == self.graph
        &&& after.root == self.root
        &&& self.fuel@ <= after.fuel@
        &&& marks_kept(self.progress@, after.progress@)
    }

    /// An evaluator that has evaluated nothing.
    fn new(graph: &'a Graph, Ghost(root): Ghost<int>) -> (evaluator: Self)
        ensures
            evaluator.inv(),
            evaluator.graph == graph,
            evaluator.root@ == root,
            evaluator.evaluated@.len() == 0,
            forall|n: int| 0 <= n < evaluator.progress@.len() ==> evaluator.progress@[n] is Pending,
    {
        proof {
            use_type_invariant(graph);
        }
        let mut progress: Vec<Progress> = Vec::new();
        let count = graph.nodes().len();
        let mut n: usize = 0;
        while n < count
            invariant
                n <= count,
                progress@.len() == n,
                forall|m: int| 0 <= m < n ==> progress@[m] is Pending,
            decreases count - n,
        {
            progress.push(Progress::Pending);
            n += 1;
        }
        Self {
            graph,
            output_cache: HashMap::new(),
            progress,
            evaluated: Vec::new(),
            fuel: Ghost(0),
            root: Ghost(root),
        }
    }

    /// The value of input `input_id`: what its connection brings, or its
    /// constant where it has no connection or the connection brings nothing.
    fn evaluate_input(&mut self, input_id: InputId) -> (result: Result<ValueType, CycleError>)
        requires
            old(self).inv(),
            input_id < old(self).graph@.inputs.len(),
            old(self).graph@.lists(old(self).node_of(input_id), input_id as int),
            old(self).is_open(old(self).node_of(input_id)),
            old(self).waiting_for(old(self).node_of(input_id)),
        ensures
            final(self).graph == old(self).graph,
            final(self).root == old(self).root,
            final(self).inv(),
            result matches Ok(value) ==> {
                &&& old(self).advanced(final(self))
                &&& value == final(self).graph@.input_value(input_id as int, final(self).fuel@ + 1)
                &&& final(self).graph@.connections[input_id as int] matches Some(o)
                    ==> final(self).progress@[final(self).graph@.owner(o as int)] is Done
                &&& final(self).evaluated@ == final(self).graph@.asked(
                    input_id as int,
                    old(self).evaluated@,
                    final(self).fuel@,
                )
            },
            result is Err ==> old(self).graph@.never_settles(old(self).node_of(input_id)),
        decreases pending(old(self).progress@), 2nat,
    {
        let graph = self.graph;
        let ghost g = graph@;
        let ghost n = self.node_of(input_id);
        proof {
            assert(g.input_ok(input_id as int));
        }
        match graph.connection(input_id) {
            Some(output_id) => {
                let ghost m = g.owner(output_id as int);
                proof {
                    self.lemma_step_down(input_id, output_id);
                }
                match self.evaluate_output(output_id) {
                    Ok(Some(value)) => Ok(value),
                    Ok(None) => Ok(graph.inputs()[input_id].value.clone()),
                    Err(error) => {
                        proof {
                            g.lemma_blocked(n, m);
                        }
                        Err(error)
                    },
                }
            },
            None => Ok(graph.inputs()[input_id].value.clone()),
        }
    }

    /// The value on output `output_id`, after its node has been evaluated if
    /// it had not been.
    fn evaluate_output(&mut self, output_id: OutputId) -> (result: Result<
        Option<ValueType>,
        CycleError,
    >)
        requires
            old(self).inv(),
            output_id < old(self).graph@.outputs.len(),
            old(self).waiting_below(old(self).graph@.owner(output_id as int)),
            old(self).graph@.upstream(old(self).root@, old(self).graph@.owner(output_id as int)),
        ensures
            final(self).graph == old(self).graph,
            final(self).root == old(self).root,
            final(self).inv(),
            result matches Ok(value) ==> {
                &&& old(self).advanced(final(self))
                &&& final(self).progress@[final(self).graph@.owner(output_id as int)] is Done
                &&& value == final(self).graph@.node_value(
                    final(self).graph@.owner(output_id as int),
                    final(self).fuel@,
                )
                &&& final(self).evaluated@ == final(self).graph@.fetched(
                    output_id as int,
                    old(self).evaluated@,
                    final(self).fuel@,
                )
            },
            result is Err ==> old(self).graph@.never_settles(
                old(self).graph@.owner(output_id as int),
            ),
        decreases pending(old(self).progress@), 1nat,
    {
        let graph = self.graph;
        let ghost g = graph@;
        let ghost m = g.owner(output_id as int);
        proof {
            assert(g.output_ok(output_id as int));
        }
        if !self.output_cache.contains_key(&output_id) {
            let node_id = graph.outputs()[output_id].node;
            match self.progress[node_id] {
                Progress::Visiting => {
                    proof {
                        assert(g.needs_less(m, m));
                        assert forall|f: nat| !#[trigger] g.settles(m, f) by {
                            g.lemma_cycle_never_settles(m, m, f);
                        }
                    }
                    return Err(CycleError);
                },
                _ => {},
            }
            proof {
                self.lemma_step_in(m);
                self.lemma_not_logged(node_id);
            }
            match self.evaluate_node(node_id) {
                Ok(()) => {},
                Err(error) => {
                    return Err(error);
                },
            }
        }
        match self.output_cache.get(&output_id) {
            Some(Some(value)) => Ok(Some(value.clone())),
            _ => Ok(None),
        }
    }

    /// Evaluates node `node_id`: resolves each of its inputs, lets its
    /// template make a scene of their values, and caches what came of it for
    /// the output of the node.
    fn evaluate_node(&mut self, node_id: NodeId) -> (result: Result<(), CycleError>)
        requires
            old(self).inv(),
            node_id < old(self).graph@.nodes.len(),
            old(self).progress@[node_id as int] is Pending,
            old(self).graph@.nodes[node_id as int].outputs@.len() == 1,
            old(self).waiting_for(node_id as int),
            old(self).graph@.upstream(old(self).root@, node_id as int),
        ensures
            final(self).graph == old(self).graph,
            final(self).root == old(self).root,
            final(self).inv(),
            result is Ok ==> {
                &&& old(self).advanced(final(self))
                &&& final(self).progress@[node_id as int] is Done
                &&& final(self).evaluated@ == final(self).graph@.visit(
                    node_id as int,
                    old(self).evaluated@,
                    final(self).fuel@,
                )
            },
            result is Err ==> old(self).graph@.never_settles(node_id as int),
        decreases pending(old(self).progress@), 0nat,
    {
        let graph = self.graph;
        let ghost g = graph@;
        let ghost n = node_id as int;
        proof {
            assert(g.is_bare(n) || g.is_built(n));
            assert(g.links_ok(n));
        }
        self.progress.set(node_id, Progress::Visiting);
        let ghost started = *self;
        proof {
            started.lemma_started(*old(self), n);
        }
        let node = &graph.nodes()[node_id];
        match node.user_data.template {
            NodeTemplate::Root => {
                // A root has no output, so nothing leads here.
                Ok(())
            },
            NodeTemplate::CSGNode(template) => {
                let mut input_params = InputValues::new();
                let mut k: usize = 0;
                while k < node.inputs.len()
                    invariant
                        self.graph == graph,
                        self.root == started.root,
                        old(self).graph == graph,
                        old(self).root == started.root,
                        old(self).progress@[n] is Pending,
                        started.progress@ == old(self).progress@.update(n, Progress::Visiting),
                        g == graph@,
                        n == node_id as int,
                        node_id < g.nodes.len(),
                        *node == g.nodes[n],
                        g.links_ok(n),
                        k <= node.inputs@.len(),
                        self.inv(),
                        started.advanced(self),
                        started.progress@[n] is Visiting,
                        pending(started.progress@) < pending(old(self).progress@),
                        self.waiting_for(n),
                        self.inputs_done(n, k as int),
                        input_params@ == g.resolved(n, self.fuel@ + 1, k as nat),
                        started.evaluated == old(self).evaluated,
                        self.evaluated@ == g.visit_inputs(
                            n,
                            started.evaluated@,
                            self.fuel@ + 1,
                            k as nat,
                        ),
                    decreases node.inputs@.len() - k,
                {
                    let ghost then = *self;
                    let input_id = node.inputs[k].1;
                    proof {
                        assert(g.input_of(n, k as int) == input_id);
                        assert(self.node_of(input_id) == n);
                    }
                    let value = match self.evaluate_input(input_id) {
                        Ok(value) => value,
                        Err(error) => {
                            return Err(error);
                        },
                    };
                    proof {
                        self.lemma_input_done(then, n, k as int);
                        assert(g.visit_inputs(n, started.evaluated@, self.fuel@ + 1, k as nat)
                            == then.evaluated@);
                    }
                    input_params.insert(node.inputs[k].0.clone(), value);
                    k += 1;
                }
                proof {
                    lemma_accepts(g, n, self.fuel@ + 1);
                }
                let value = match template.evaluate(input_params) {
                    Some(scene) => Some(ValueType::csg_node(scene)),
                    None => None,
                };
                let ghost before = *self;
                proof {
                    lemma_pending_update(self.progress@, n, Progress::Done);
                }
                self.output_cache.insert(node.outputs[0].1, value);
                self.evaluated.push(node_id);
                self.progress.set(node_id, Progress::Done);
                self.fuel = Ghost(before.fuel@ + 1);
                proof {
                    self.lemma_node_done(before, n, value);
                    lemma_marks_after_node(
                        old(self).progress@,
                        started.progress@,
                        before.progress@,
                        self.progress@,
                        n,
                    );
                }
                Ok(())
            },
        }
    }

    /// From an input of an open node to the node that the input is
    /// connected to: that node lies upstream of the root, and every node
    /// that is being evaluated needs it with less fuel.
    proof fn lemma_step_down(&self, input_id: InputId, output_id: OutputId)
        requires
            self.inv(),
            input_id < self.graph@.inputs.len(),
            self.graph@.lists(self.node_of(input_id), input_id as int),
            self.is_open(self.node_of(input_id)),
            self.waiting_for(self.node_of(input_id)),
            self.graph@.connections[input_id as int] == Some(output_id),
        ensures
            output_id < self.graph@.outputs.len(),
            self.graph@.feeds(self.graph@.owner(output_id as int), self.node_of(input_id)),
            self.graph@.upstream(self.root@, self.graph@.owner(output_id as int)),
            self.waiting_below(self.graph@.owner(output_id as int)),
    {
        let g = self.graph@;
        let n = self.node_of(input_id);
        let m = g.owner(output_id as int);
        let k = choose|k: int|
            0 <= k < g.nodes[n].inputs@.len() && #[trigger] g.input_of(n, k) == input_id;
        assert(g.input_ok(input_id as int));
        assert(g.connections[g.input_of(n, k)] == Some(output_id));
        assert(g.feeds(m, n));
        if n == self.root@ {
            assert(g.feeds(m, n) && g.reaches(m, m, 0));
            assert(g.reaches(n, m, 1));
        } else {
            let steps = choose|steps: nat| steps > 0 && #[trigger] g.reaches(self.root@, n, steps);
            g.lemma_reaches_further(self.root@, n, m, steps);
            assert(g.reaches(self.root@, m, steps + 1));
        }
        assert forall|x: int|
            0 <= x < self.progress@.len() && #[trigger] self.progress@[x] is Visiting implies
            g.needs_less(x, m) by {
            assert(g.needs(x, n));
            assert forall|f: nat| #[trigger] g.settles(x, f) implies f > 0 && g.settles(
                m,
                (f - 1) as nat,
            ) by {
                assert(g.settles(n, f));
            }
        }
    }

    /// A node that is not done is not in the log.
    proof fn lemma_not_logged(&self, m: NodeId)
        requires
            self.inv(),
            m < self.graph@.nodes.len(),
            !(self.progress@[m as int] is Done),
        ensures
            !self.evaluated@.contains(m),
    {
        if self.evaluated@.contains(m) {
            let j = choose|j: int| 0 <= j < self.evaluated@.len() && self.evaluated@[j] == m;
            assert(self.progress@[self.evaluated@[j] as int] is Done);
        }
    }

    /// What needs a node with less fuel needs it with as much.
    proof fn lemma_step_in(&self, m: int)
        requires
            self.waiting_below(m),
        ensures
            self.waiting_for(m),
    {
        let g = self.graph@;
        assert forall|x: int|
            0 <= x < self.progress@.len() && #[trigger] self.progress@[x] is Visiting implies
            g.needs(x, m) by {
            assert(g.needs_less(x, m));
            assert forall|f: nat| #[trigger] g.settles(x, f) implies g.settles(m, f) by {
                g.lemma_settles_more(m, (f - 1) as nat, f);
            }
        }
    }

    /// The step that begins the evaluation of node `n`: with the node
    /// marked as being evaluated, the evaluator is as `inv` asks, one node
    /// less is pending, and every node that is being evaluated needs `n`.
    proof fn lemma_started(&self, before: Self, n: int)
        requires
            before.inv(),
            0 <= n < before.graph@.nodes.len(),
            before.progress@[n] is Pending,
            before.waiting_for(n),
            before.graph@.upstream(before.root@, n),
            self.graph == before.graph,
            self.root == before.root,
            self.fuel == before.fuel,
            self.output_cache == before.output_cache,
            self.evaluated == before.evaluated,
            self.progress@ == before.progress@.update(n, Progress::Visiting),
        ensures
            self.inv(),
            self.waiting_for(n),
            self.advanced(self),
            pending(self.progress@) < pending(before.progress@),
    {
        let g = self.graph@;
        lemma_pending_update(before.progress@, n, Progress::Visiting);
        assert forall|o: usize| #[trigger] self.output_cache@.contains_key(o) implies {
            &&& o < g.outputs.len()
            &&& self.progress@[g.owner(o as int)] is Done
            &&& self.output_cache@[o] == g.node_value(g.owner(o as int), self.fuel@)
        } by {
            assert(g.output_ok(o as int));
            assert(before.progress@[g.owner(o as int)] is Done);
        }
        assert forall|m: int|
            0 <= m < g.nodes.len() && #[trigger] self.progress@[m] is Done implies {
            &&& g.settles(m, self.fuel@)
            &&& g.nodes[m].outputs@.len() == 1
            &&& self.output_cache@.contains_key(g.nodes[m].outputs@[0].1)
            &&& self.evaluated@.contains(m as usize)
        } by {
            assert(before.progress@[m] is Done);
        }
        assert forall|j: int| 0 <= j < self.evaluated@.len() implies (#[trigger] self.evaluated@[j])
            < g.nodes.len() && self.progress@[self.evaluated@[j] as int] is Done by {
            assert(before.progress@[before.evaluated@[j] as int] is Done);
        }
        assert forall|x: int, m: int|
            0 <= x < g.nodes.len() && self.progress@[x] is Done && #[trigger] g.feeds(
                m,
                x,
            ) implies self.progress@[m] is Done by {
            g.lemma_feeds_in_range(m, x);
            assert(before.progress@[x] is Done);
            assert(before.progress@[m] is Done);
        }
        assert forall|x: int|
            0 <= x < g.nodes.len() && !(#[trigger] self.progress@[x] is Pending) implies g.upstream(
            self.root@,
            x,
        ) by {
            if x != n {
                assert(!(before.progress@[x] is Pending));
            }
        }
        assert forall|x: int|
            0 <= x < self.progress@.len() && #[trigger] self.progress@[x] is Visiting implies
            g.needs(x, n) by {
            if x != n {
                assert(before.progress@[x] is Visiting);
            }
        }
    }

    /// What one more resolved input of node `n` keeps and adds: the inputs
    /// before it still lead to nodes that are done and keep their values,
    /// and so does this one.
    proof fn lemma_input_done(&self, then: Self, n: int, k: int)
        requires
            then.inv(),
            self.inv(),
            then.advanced(self),
            0 <= n < self.graph@.nodes.len(),
            0 <= k < self.graph@.nodes[n].inputs@.len(),
            then.inputs_done(n, k),
            then.waiting_for(n),
            self.graph@.connections[self.graph@.input_of(n, k)] matches Some(o)
                ==> self.progress@[self.graph@.owner(o as int)] is Done,
        ensures
            self.inputs_done(n, k + 1),
            self.waiting_for(n),
            self.graph@.resolved(n, self.fuel@ + 1, k as nat) == self.graph@.resolved(
                n,
                then.fuel@ + 1,
                k as nat,
            ),
            forall|seen: Seq<NodeId>| #[trigger]
                self.graph@.visit_inputs(n, seen, self.fuel@ + 1, k as nat)
                    == self.graph@.visit_inputs(n, seen, then.fuel@ + 1, k as nat),
    {
        let g = self.graph@;
        assert(g.links_ok(n));
        assert forall|j: int| 0 <= j < k implies (
        #[trigger] g.connections[g.input_of(n, j)] matches Some(o) ==> then.progress@[g.owner(
            o as int,
        )] is Done && g.settles(g.owner(o as int), then.fuel@)) by {
            if let Some(o) = g.connections[g.input_of(n, j)] {
                assert(g.input_ok(g.input_of(n, j)));
                assert(g.output_ok(o as int));
                assert(then.progress@[g.owner(o as int)] is Done);
            }
        }
        g.lemma_inputs_stable(n, k as nat, then.fuel@, self.fuel@);
        assert forall|seen: Seq<NodeId>| #[trigger]
            g.visit_inputs(n, seen, self.fuel@ + 1, k as nat) == g.visit_inputs(
                n,
                seen,
                then.fuel@ + 1,
                k as nat,
            ) by {
            g.lemma_visits_stable(n, seen, k as nat, then.fuel@, self.fuel@);
        }
        assert forall|j: int| 0 <= j < k + 1 implies (
        #[trigger] g.connections[g.input_of(n, j)] matches Some(o) ==> self.progress@[g.owner(
            o as int,
        )] is Done) by {
            if j < k {
                if let Some(o) = g.connections[g.input_of(n, j)] {
                    assert(g.input_ok(g.input_of(n, j)));
                    assert(g.output_ok(o as int));
                    assert(then.progress@[g.owner(o as int)] is Done);
                }
            }
        }
        assert forall|x: int|
            0 <= x < self.progress@.len() && #[trigger] self.progress@[x] is Visiting implies
            g.needs(x, n) by {
            assert(then.progress@[x] is Visiting);
        }
    }

    /// The step that ends the evaluation of node `n`: with its value cached,
    /// the node logged and marked done, and one more unit of fuel, the
    /// evaluator is again as `inv` asks.
    proof fn lemma_node_done(&self, before: Self, n: int, value: Option<ValueType>)
        requires
            before.inv(),
            self.graph == before.graph,
            self.root == before.root,
            0 <= n < before.graph@.nodes.len(),
            before.progress@[n] is Visiting,
            before.graph@.nodes[n].outputs@.len() == 1,
            before.inputs_done(n, before.graph@.nodes[n].inputs@.len() as int),
            value == before.graph@.node_value(n, before.fuel@ + 1),
            self.output_cache@ == before.output_cache@.insert(
                before.graph@.nodes[n].outputs@[0].1,
                value,
            ),
            self.evaluated@ == before.evaluated@.push(n as usize),
            self.progress@ == before.progress@.update(n, Progress::Done),
            self.fuel@ == before.fuel@ + 1,
        ensures
            self.inv(),
    {
        let g = self.graph@;
        let fuel = before.fuel@;
        let out = g.nodes[n].outputs@[0].1;
        lemma_pending_update(before.progress@, n, Progress::Done);
        assert(g.links_ok(n));
        assert(g.output_ok(out as int));
        assert(g.inputs_settle(n, g.nodes[n].inputs@.len() as int, fuel)) by {
            assert forall|k: int| 0 <= k < g.nodes[n].inputs@.len() implies (
            #[trigger] g.connections[g.input_of(n, k)] matches Some(o) ==> g.settles(
                g.owner(o as int),
                fuel,
            )) by {
                if let Some(o) = g.connections[g.input_of(n, k)] {
                    assert(g.input_ok(g.input_of(n, k)));
                    assert(g.output_ok(o as int));
                    assert(before.progress@[g.owner(o as int)] is Done);
                }
            }
        }
        g.lemma_settles_above(n, fuel);
        assert forall|o: usize| #[trigger] self.output_cache@.contains_key(o) implies {
            &&& o < g.outputs.len()
            &&& self.progress@[g.owner(o as int)] is Done
            &&& self.output_cache@[o] == g.node_value(g.owner(o as int), self.fuel@)
        } by {
            if o != out {
                assert(before.output_cache@.contains_key(o));
                assert(g.output_ok(o as int));
                assert(before.progress@[g.owner(o as int)] is Done);
                g.lemma_value_settled(g.owner(o as int), fuel, fuel + 1);
            } else {
                assert(g.owner(out as int) == n);
            }
        }
        assert forall|m: int|
            0 <= m < g.nodes.len() && #[trigger] self.progress@[m] is Done implies {
            &&& g.settles(m, self.fuel@)
            &&& g.nodes[m].outputs@.len() == 1
            &&& self.output_cache@.contains_key(g.nodes[m].outputs@[0].1)
            &&& self.evaluated@.contains(m as usize)
        } by {
            if m != n {
                assert(before.progress@[m] is Done);
                g.lemma_settles_more(m, fuel, fuel + 1);
                let j = choose|j: int|
                    0 <= j < before.evaluated@.len() && before.evaluated@[j] == m as usize;
                assert(self.evaluated@[j] == m as usize);
            } else {
                assert(self.evaluated@[before.evaluated@.len() as int] == n as usize);
            }
        }
        assert forall|x: int, m: int|
            0 <= x < g.nodes.len() && self.progress@[x] is Done && #[trigger] g.feeds(
                m,
                x,
            ) implies self.progress@[m] is Done by {
            g.lemma_feeds_in_range(m, x);
            if x == n {
                let k = g.lemma_feeds_at(m, n);
                assert(g.connections[g.input_of(n, k)] is Some);
                assert(before.progress@[m] is Done);
            } else {
                assert(before.progress@[x] is Done);
                assert(before.progress@[m] is Done);
            }
        }
        assert forall|x: int|
            0 <= x < g.nodes.len() && !(#[trigger] self.progress@[x] is Pending) implies g.upstream(
            self.root@,
            x,
        ) by {
            assert(!(before.progress@[x] is Pending));
        }
        assert(feeders_first(g, self.evaluated@)) by {
            let log = self.evaluated@;
            assert forall|j: int, m: int|
                0 <= j < log.len() && #[trigger] g.feeds(m, log[j] as int) implies exists|i: int|
                0 <= i < j && #[trigger] log[i] == m by {
                if j < before.evaluated@.len() {
                    assert(log[j] == before.evaluated@[j]);
                    let i = choose|i: int| 0 <= i < j && #[trigger] before.evaluated@[i] == m;
                    assert(log[i] == m);
                } else {
                    g.lemma_feeds_in_range(m, n);
                    let k = g.lemma_feeds_at(m, n);
                    assert(g.connections[g.input_of(n, k)] is Some);
                    assert(before.progress@[m] is Done);
                    let i = choose|i: int|
                        0 <= i < before.evaluated@.len() && before.evaluated@[i] == m as usize;
                    assert(log[i] == m);
                }
            }
        }
        assert(self.evaluated@.no_duplicates()) by {
            assert forall|i: int, j: int|
                0 <= i < self.evaluated@.len() && 0 <= j < self.evaluated@.len() && i
                    != j implies self.evaluated@[i] != self.evaluated@[j] by {
                if i < before.evaluated@.len() {
                    assert(before.progress@[before.evaluated@[i] as int] is Done);
                }
                if j < before.evaluated@.len() {
                    assert(before.progress@[before.evaluated@[j] as int] is Done);
                }
            }
        }
        assert forall|j: int| 0 <= j < self.evaluated@.len() implies (#[trigger] self.evaluated@[j])
            < g.nodes.len() && self.progress@[self.evaluated@[j] as int] is Done by {
            if j < before.evaluated@.len() {
                assert(before.progress@[before.evaluated@[j] as int] is Done);
            }
        }
    }

    /// Whatever lies upstream of a node that is done is done.
    proof fn lemma_done_is_closed(&self, from: int, to: int, steps: nat)
        requires
            self.inv(),
            0 <= from < self.graph@.nodes.len(),
            self.progress@[from] is Done,
            self.graph@.reaches(from, to, steps),
        ensures
            0 <= to < self.graph@.nodes.len(),
            self.progress@[to] is Done,
            self.evaluated@.contains(to as usize),
        decreases steps,
    {
        let g = self.graph@;
        if steps > 0 {
            let via = choose|via: int| #[trigger]
                g.feeds(via, from) && g.reaches(via, to, (steps - 1) as nat);
            g.lemma_feeds_in_range(via, from);
            assert(self.progress@[via] is Done);
            self.lemma_done_is_closed(via, to, (steps - 1) as nat);
        }
    }

    /// The log of an evaluation that went through, from a root whose one
    /// input is `input_id`, holds the nodes upstream of the root, and no
    /// others.
    proof fn lemma_log_is_upstream(&self, input_id: InputId, n: usize)
        requires
            self.inv(),
            0 <= self.root@ < self.graph@.nodes.len(),
            self.graph@.nodes[self.root@].inputs@.len() == 1,
            self.graph@.input_of(self.root@, 0) == input_id,
            self.graph@.connections[input_id as int] matches Some(o)
                ==> self.progress@[self.graph@.owner(o as int)] is Done,
        ensures
            self.evaluated@.contains(n) <==> self.graph@.upstream(self.root@, n as int),
    {
        let g = self.graph@;
        let r = self.root@;
        if self.evaluated@.contains(n) {
            let j = choose|j: int| 0 <= j < self.evaluated@.len() && self.evaluated@[j] == n;
            assert(self.progress@[self.evaluated@[j] as int] is Done);
        }
        if g.upstream(r, n as int) {
            let steps = choose|steps: nat| steps > 0 && #[trigger] g.reaches(r, n as int, steps);
            let via = choose|via: int| #[trigger]
                g.feeds(via, r) && g.reaches(via, n as int, (steps - 1) as nat);
            let at = g.lemma_feeds_at(via, r);
            g.lemma_feeds_in_range(via, r);
            self.lemma_done_is_closed(via, n as int, (steps - 1) as nat);
        }
    }
}

impl Parts {
    /// A node without inputs has nothing upstream.
    proof fn lemma_nothing_upstream(self, n: int, to: int)
        requires
            self.nodes[n].inputs@.len() == 0,
        ensures
            !self.upstream(n, to),
    {
        if self.upstream(n, to) {
            let steps = choose|steps: nat| steps > 0 && #[trigger] self.reaches(n, to, steps);
            let via = choose|via: int| #[trigger]
                self.feeds(via, n) && self.reaches(via, to, (steps - 1) as nat);
            assert(self.feeds(via, n));
        }
    }
}

/// The values of the inputs of a scene node that has its sockets are what
/// its template reads: each declared input is there, with a value of its
/// declared type.
proof fn lemma_accepts(g: Parts, n: int, fuel: nat)
    requires
        g.well_formed(),
        0 <= n < g.nodes.len(),
        g.nodes[n].outputs@.len() == 1,
        g.nodes[n].user_data.template is CSGNode,
    ensures
        g.nodes[n].user_data.template->CSGNode_0.accepts(
            g.resolved(n, fuel, g.nodes[n].inputs@.len()),
        ),
{
    let template = g.nodes[n].user_data.template->CSGNode_0;
    let declared = template.spec_input_params();
    let node = g.nodes[n];
    assert(g.is_bare(n) || g.is_built(n));
    assert(g.links_ok(n));
    assert(node.inputs@.len() == 2);
    let first = g.input_of(n, 0);
    let second = g.input_of(n, 1);
    assert(node.inputs@[0].0@ == declared[0].0);
    assert(node.inputs@[1].0@ == declared[1].0);
    g.lemma_input_value_type(first, fuel);
    g.lemma_input_value_type(second, fuel);
    reveal_strlit("center");
    reveal_strlit("radius");
    reveal_strlit("A");
    reveal_strlit("B");
    assert("center"@ != "radius"@) by {
        assert("center"@[0] == 'c');
        assert("radius"@[0] == 'r');
    }
    assert("A"@ != "B"@) by {
        assert("A"@[0] == 'A');
        assert("B"@[0] == 'B');
    }
    let one = g.resolved(n, fuel, 1);
    assert(g.resolved(n, fuel, 0) == Map::<Seq<char>, ValueType>::empty());
    assert(one == Map::<Seq<char>, ValueType>::empty().insert(
        node.inputs@[0].0@,
        g.input_value(first, fuel),
    ));
    assert(g.resolved(n, fuel, 2) == one.insert(node.inputs@[1].0@, g.input_value(second, fuel)));
}

/// The index of the first root of `graph`, if it has one.
fn find_root(graph: &Graph) -> (root: Option<NodeId>)
    ensures
        match root {
            Some(root) => graph@.root_from(0) == Some(root as int) && root < graph@.nodes.len()
                && graph@.is_root(root as int),
            None => graph@.root_from(0) is None,
        },
{
    let nodes = graph.nodes();
    let mut n: usize = 0;
    while n < nodes.len()
        invariant
            n <= nodes@.len(),
            nodes@ == graph@.nodes,
            graph@.root_from(0) == graph@.root_from(n as int),
        decreases nodes@.len() - n,
    {
        match nodes[n].user_data.template {
            NodeTemplate::Root => {
                return Some(n);
            },
            NodeTemplate::CSGNode(_) => {},
        }
        n += 1;
    }
    None
}

/// What one evaluation of a graph gives.
#[derive(Debug)]
pub struct Evaluation {
    /// The scene that the root asks for, if there is one.
    pub scene: Option<CSGNode>,
    /// The nodes whose template was evaluated, in the order in which that
    /// happened.
    pub evaluated: Vec<NodeId>,
}

/// Evaluates `graph` from its first root.
///
/// The scene is the one that the graph stands for. Along the way the
/// template of a node is evaluated at most once, however many inputs the
/// output of the node feeds: no node is listed twice among the evaluated
/// ones, and each is listed behind the nodes that feed it. Where no cycle
/// lies upstream of the root, the evaluated nodes are the nodes upstream of
/// the root, each of them and no other, in the order in which a walk from
/// the root comes back from them, input after input.
pub fn evaluate(graph: &Graph) -> (evaluation: Evaluation)
    ensures
        evaluation.scene == graph@.scene(),
        evaluation.evaluated@.no_duplicates(),
        feeders_first(graph@, evaluation.evaluated@),
        forall|j: int|
            0 <= j < evaluation.evaluated@.len() ==> (#[trigger] evaluation.evaluated@[j])
                < graph@.nodes.len()
                && graph@.nodes[evaluation.evaluated@[j] as int].user_data.template is CSGNode,
        graph@.root_from(0) is None ==> evaluation.evaluated@.len() == 0,
        graph@.root_from(0) matches Some(root) ==> forall|fuel: nat| #[trigger]
            graph@.settles(root, fuel) ==> evaluation.evaluated@ == graph@.visit_inputs(
                root,
                Seq::empty(),
                fuel,
                graph@.nodes[root].inputs@.len(),
            ),
        graph@.root_from(0) matches Some(root) ==> ((exists|fuel: nat| graph@.settles(root, fuel))
            ==> forall|n: usize|
            evaluation.evaluated@.contains(n) <==> graph@.upstream(root, n as int)),
{
    proof {
        use_type_invariant(graph);
    }
    let ghost g = graph@;
    let root = match find_root(graph) {
        Some(root) => root,
        None => {
            return Evaluation { scene: None, evaluated: Vec::new() };
        },
    };
    let ghost r = root as int;
    proof {
        assert(g.links_ok(r));
        assert(g.is_bare(r) || g.is_built(r));
    }
    let input_id = match graph.nodes()[root].get_input("SDF") {
        Some(input_id) => input_id,
        None => {
            let evaluated: Vec<NodeId> = Vec::new();
            proof {
                if g.nodes[r].inputs@.len() > 0 {
                    assert(g.nodes[r].inputs@[0].0@ == "SDF"@);
                }
                assert forall|n: usize| evaluated@.contains(n) <==> g.upstream(r, n as int) by {
                    g.lemma_nothing_upstream(r, n as int);
                }
                assert(evaluated@ =~= Seq::<NodeId>::empty());
            }
            return Evaluation { scene: None, evaluated };
        },
    };
    proof {
        Parts::lemma_find_is_listed(g.nodes[r].inputs@, "SDF"@);
        assert(g.nodes[r].inputs@.len() == 1);
        assert(g.input_of(r, 0) == input_id);
    }
    let mut evaluator = Evaluator::new(graph, Ghost(r));
    assert(evaluator.evaluated@ =~= Seq::<NodeId>::empty());
    let result = evaluator.evaluate_input(input_id);
    proof {
        assert forall|j: int| 0 <= j < evaluator.evaluated@.len() implies (
        #[trigger] evaluator.evaluated@[j]) < g.nodes.len()
            && g.nodes[evaluator.evaluated@[j] as int].user_data.template is CSGNode by {
            let n = evaluator.evaluated@[j] as int;
            assert(evaluator.progress@[n] is Done);
            assert(g.is_bare(n) || g.is_built(n));
        }
    }
    match result {
        Ok(value) => {
            proof {
                let fuel = evaluator.fuel@;
                assert(g.inputs_settle(r, 1, fuel)) by {
                    assert forall|k: int| 0 <= k < 1 implies (
                    #[trigger] g.connections[g.input_of(r, k)] matches Some(o) ==> g.settles(
                        g.owner(o as int),
                        fuel,
                    )) by {
                        if let Some(o) = g.connections[g.input_of(r, k)] {
                            assert(g.input_ok(input_id as int));
                            assert(g.output_ok(o as int));
                            assert(evaluator.progress@[g.owner(o as int)] is Done);
                        }
                    }
                }
                g.lemma_settles_above(r, fuel);
                g.lemma_scene_with_fuel(fuel + 1);
                let none = Seq::<NodeId>::empty();
                assert(g.visit_inputs(r, none, fuel + 1, 0) == none);
                assert(g.visit_inputs(r, none, fuel + 1, 1) == g.asked(input_id as int, none, fuel));
                assert forall|other: nat| #[trigger] g.settles(r, other) implies evaluator.evaluated@
                    == g.visit_inputs(r, none, other, 1) by {
                    if other <= fuel + 1 {
                        g.lemma_visit_settled(r, none, other, fuel + 1);
                    } else {
                        g.lemma_visit_settled(r, none, fuel + 1, other);
                    }
                }
                assert forall|n: usize| evaluator.evaluated@.contains(n) <==> g.upstream(
                    r,
                    n as int,
                ) by {
                    evaluator.lemma_log_is_upstream(input_id, n);
                }
            }
            Evaluation { scene: value.to_csg_node(), evaluated: evaluator.evaluated }
        },
        Err(_) => Evaluation { scene: None, evaluated: evaluator.evaluated },
    }
}

/// A node graph as an editor holds it.
pub struct CSGNodeGraph {
    pub graph: Graph,
    pub user_state: GraphState,
}

impl CSGNodeGraph {
    /// An editor's graph without nodes.
    pub fn new() -> (editor: Self)
        ensures
            editor.graph@.nodes.len() == 0,
            editor.graph@.inputs.len() == 0,
            editor.graph@.outputs.len() == 0,
            editor.graph@.connections.len() == 0,
    {
        CSGNodeGraph { graph: Graph::new(), user_state: GraphState }
    }

    /// Adds a node of the given template, with its sockets, and gives its
    /// index.
    pub fn add_node(&mut self, template: NodeTemplate) -> (id: NodeId)
        ensures
            id == old(self).graph@.nodes.len(),
            final(self).graph@.nodes.len() == id + 1,
            final(self).graph@.nodes.take(id as int) == old(self).graph@.nodes,
            final(self).graph@.nodes[id as int].id == id,
            final(self).graph@.nodes[id as int].label@ == template.spec_label(),
            final(self).graph@.nodes[id as int].user_data.template == template,
            final(self).graph@.is_built(id as int),
            old(self).graph@.sockets_added(id as int, template, final(self).graph@),
    {
        self.graph.add_node(template, &mut self.user_state)
    }

    /// The scene to render this frame: what the graph's root asks for, or
    /// nothing.
    pub fn evaluate_root(&self) -> (scene: Option<CSGNode>)
        ensures
            scene == self.graph@.scene(),
    {
        evaluate(&self.graph).scene
    }
}

impl Default for CSGNodeGraph {
    fn default() -> (editor: Self)
        ensures
            editor.graph@.nodes.len() == 0,
            editor.graph@.inputs.len() == 0,
            editor.graph@.outputs.len() == 0,
            editor.graph@.connections.len() == 0,
    {
        CSGNodeGraph::new()
    }
}

} // verus!
