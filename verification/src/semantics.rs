//! What a node graph means: the scene that its root asks for.
//!
//! The value of an input is what its connection brings, or its constant
//! where it has no connection or the connection brings nothing. The value of
//! a scene node is what its template makes of the values of its inputs. The
//! definitions count nested nodes with a `fuel`, so that they are defined on
//! every graph; a node *settles* where some fuel is enough, which is where
//! no cycle lies upstream of it.

use vstd::prelude::*;
use crate::graph::{Node, NodeId, NodeTemplate, Parts};
use crate::node::CSGNode;
use crate::template::CSGNodeTemplateTrait;
use crate::value::{DataType, ValueType};

verus! {

impl Parts {
    /// The node that output `o` belongs to.
    pub open spec fn owner(self, o: int) -> int {
        self.outputs[o].node as int
    }

    /// The `k`-th input of node `n`.
    pub open spec fn input_of(self, n: int, k: int) -> int {
        self.nodes[n].inputs@[k].1 as int
    }

    /// Whether `fuel` nested nodes are enough to evaluate node `n`: every
    /// node that an input of `n` is connected to settles with one less.
    pub open spec fn settles(self, n: int, fuel: nat) -> bool
        decreases fuel,
    {
        forall|k: int|
            0 <= k < self.nodes[n].inputs@.len() ==> (
            #[trigger] self.connections[self.input_of(n, k)] matches Some(o) ==> fuel > 0
                && self.settles(self.owner(o as int), (fuel - 1) as nat))
    }

    /// The value of input `i`.
    pub open spec fn input_value(self, i: int, fuel: nat) -> ValueType
        decreases fuel, 1nat, 0nat,
    {
        match self.connections[i] {
            Some(o) => match self.output_value(o as int, fuel) {
                Some(value) => value,
                None => self.inputs[i].value,
            },
            None => self.inputs[i].value,
        }
    }

    /// The value on output `o`, if its node gives one.
    pub open spec fn output_value(self, o: int, fuel: nat) -> Option<ValueType>
        decreases fuel, 0nat, 0nat,
    {
        if fuel == 0 {
            None
        } else {
            self.node_value(self.owner(o), (fuel - 1) as nat)
        }
    }

    /// The value that node `n` gives: none for a root, and for a scene node
    /// the scene that its template makes, if it makes one.
    pub open spec fn node_value(self, n: int, fuel: nat) -> Option<ValueType>
        decreases fuel, 3nat, 0nat,
    {
        match self.nodes[n].user_data.template {
            NodeTemplate::Root => None,
            NodeTemplate::CSGNode(template) => match template.spec_evaluate(
                self.resolved(n, fuel, self.nodes[n].inputs@.len()),
            ) {
                Some(node) => Some(ValueType::CSGNode(Some(Box::new(node)))),
                None => None,
            },
        }
    }

    /// The values of the first `count` inputs of node `n`, by name.
    pub open spec fn resolved(self, n: int, fuel: nat, count: nat) -> Map<Seq<char>, ValueType>
        decreases fuel, 2nat, count,
    {
        if count == 0 {
            Map::empty()
        } else {
            let k = count - 1;
            self.resolved(n, fuel, k as nat).insert(
                self.nodes[n].inputs@[k].0@,
                self.input_value(self.input_of(n, k), fuel),
            )
        }
    }

    /// Whether node `n` is a root.
    pub open spec fn is_root(self, n: int) -> bool {
        self.nodes[n].user_data.template is Root
    }

    /// The first root among the nodes from `from` on, if there is one.
    pub open spec fn root_from(self, from: int) -> Option<int>
        decreases self.nodes.len() - from,
    {
        if from >= self.nodes.len() {
            None
        } else if self.is_root(from) {
            Some(from)
        } else {
            self.root_from(from + 1)
        }
    }

    /// The scene that the graph stands for: what the input `SDF` of its
    /// first root holds. There is none where the graph has no root, where
    /// the root has no such input, where the input holds none, and where a
    /// cycle lies upstream of the root.
    pub open spec fn scene(self) -> Option<CSGNode> {
        match self.root_from(0) {
            None => None,
            Some(root) => match Node::find(self.nodes[root].inputs@, "SDF"@) {
                None => None,
                Some(input) => {
                    if exists|fuel: nat| self.settles(root, fuel) {
                        let fuel = choose|fuel: nat| self.settles(root, fuel);
                        self.input_value(input as int, fuel).spec_to_csg_node()
                    } else {
                        None
                    }
                },
            },
        }
    }

    /// More fuel does not unsettle a node.
    pub proof fn lemma_settles_more(self, n: int, fuel: nat, more: nat)
        requires
            self.settles(n, fuel),
            fuel <= more,
        ensures
            self.settles(n, more),
        decreases fuel,
    {
        assert forall|k: int| 0 <= k < self.nodes[n].inputs@.len() implies (
        #[trigger] self.connections[self.input_of(n, k)] matches Some(o) ==> more > 0
            && self.settles(self.owner(o as int), (more - 1) as nat)) by {
            if let Some(o) = self.connections[self.input_of(n, k)] {
                self.lemma_settles_more(self.owner(o as int), (fuel - 1) as nat, (more - 1) as nat);
            }
        }
    }

    /// Once a node settles, more fuel does not change its value, nor the
    /// values of its inputs.
    pub proof fn lemma_value_settled(self, n: int, fuel: nat, more: nat)
        requires
            self.settles(n, fuel),
            fuel <= more,
        ensures
            self.node_value(n, more) == self.node_value(n, fuel),
            forall|count: nat|
                count <= self.nodes[n].inputs@.len() ==> #[trigger] self.resolved(n, more, count)
                    == self.resolved(n, fuel, count),
            forall|k: int|
                0 <= k < self.nodes[n].inputs@.len() ==> self.input_value(
                    #[trigger] self.input_of(n, k),
                    more,
                ) == self.input_value(self.input_of(n, k), fuel),
        decreases fuel,
    {
        assert forall|k: int| 0 <= k < self.nodes[n].inputs@.len() implies self.input_value(
            #[trigger] self.input_of(n, k),
            more,
        ) == self.input_value(self.input_of(n, k), fuel) by {
            assert(self.connections[self.input_of(n, k)] matches Some(o) ==> fuel > 0
                && self.settles(self.owner(o as int), (fuel - 1) as nat));
            if let Some(o) = self.connections[self.input_of(n, k)] {
                self.lemma_value_settled(
                    self.owner(o as int),
                    (fuel - 1) as nat,
                    (more - 1) as nat,
                );
            }
        }
        assert forall|count: nat| count <= self.nodes[n].inputs@.len() implies
            #[trigger] self.resolved(n, more, count) == self.resolved(n, fuel, count) by {
            self.lemma_resolved_settled(n, fuel, more, count);
        }
        let all = self.nodes[n].inputs@.len();
        assert(self.resolved(n, more, all) == self.resolved(n, fuel, all));
    }

    /// The step of `lemma_value_settled` for the map of input values.
    proof fn lemma_resolved_settled(self, n: int, fuel: nat, more: nat, count: nat)
        requires
            count <= self.nodes[n].inputs@.len(),
            forall|k: int|
                0 <= k < self.nodes[n].inputs@.len() ==> self.input_value(
                    #[trigger] self.input_of(n, k),
                    more,
                ) == self.input_value(self.input_of(n, k), fuel),
        ensures
            self.resolved(n, more, count) == self.resolved(n, fuel, count),
        decreases count,
    {
        if count > 0 {
            self.lemma_resolved_settled(n, fuel, more, (count - 1) as nat);
            assert(self.input_value(self.input_of(n, count - 1), more) == self.input_value(
                self.input_of(n, count - 1),
                fuel,
            ));
        }
    }

    /// Any fuel that settles the root tells the scene of the graph: the
    /// scene is what the input `SDF` of the root holds with that fuel.
    pub proof fn lemma_scene_with_fuel(self, fuel: nat)
        requires
            self.well_formed(),
            self.root_from(0) matches Some(root) && self.settles(root, fuel),
        ensures
            self.scene() == match Node::find(
                self.nodes[self.root_from(0).unwrap()].inputs@,
                "SDF"@,
            ) {
                Some(input) => self.input_value(input as int, fuel).spec_to_csg_node(),
                None => None,
            },
    {
        let root = self.root_from(0).unwrap();
        self.lemma_root_from(0);
        if let Some(input) = Node::find(self.nodes[root].inputs@, "SDF"@) {
            assert(self.is_bare(root) || self.is_built(root));
            assert(self.nodes[root].inputs@[0].0@ == "SDF"@);
            assert(self.input_of(root, 0) == input);
            let chosen = choose|fuel: nat| self.settles(root, fuel);
            if chosen <= fuel {
                self.lemma_value_settled(root, chosen, fuel);
            } else {
                self.lemma_value_settled(root, fuel, chosen);
            }
        }
    }

    /// A node that needs itself never settles: if settling `n` takes
    /// settling `m` with less fuel, and settling `m` takes settling `n`,
    /// then no fuel settles `m`.
    pub proof fn lemma_cycle_never_settles(self, n: int, m: int, fuel: nat)
        requires
            forall|f: nat|
                #[trigger] self.settles(n, f) ==> f > 0 && self.settles(m, (f - 1) as nat),
            forall|f: nat| #[trigger] self.settles(m, f) ==> self.settles(n, f),
        ensures
            !self.settles(m, fuel),
            !self.settles(n, fuel),
        decreases fuel,
    {
        if self.settles(m, fuel) || self.settles(n, fuel) {
            assert(self.settles(n, fuel));
            assert(fuel > 0 && self.settles(m, (fuel - 1) as nat));
            self.lemma_cycle_never_settles(n, m, (fuel - 1) as nat);
        }
    }

    /// In a well-formed graph the value of an input has the type of the
    /// input.
    pub proof fn lemma_input_value_type(self, i: int, fuel: nat)
        requires
            self.well_formed(),
            0 <= i < self.inputs.len(),
        ensures
            self.input_value(i, fuel).spec_data_type() == self.inputs[i].typ,
    {
        assert(self.input_ok(i));
        if let Some(o) = self.connections[i] {
            assert(self.output_ok(o as int));
        }
    }
}

impl Parts {
    /// Whether a scene is missing within `depth` connections upstream of
    /// node `n`: some scene input of `n` is not connected, or leads to a
    /// node of which the same holds with less depth.
    pub open spec fn starved(self, n: int, depth: nat) -> bool
        decreases depth,
    {
        exists|k: int|
            0 <= k < self.nodes[n].inputs@.len() && (#[trigger] self.inputs[self.input_of(n, k)]).typ
                is CSGNode && match self.connections[self.input_of(n, k)] {
                None => true,
                Some(o) => depth > 0 && self.starved(self.owner(o as int), (depth - 1) as nat),
            }
    }

    /// A scene input that is not connected, or that leads to a node which
    /// gives nothing, holds no scene.
    proof fn lemma_starved_input(self, n: int, k: int, depth: nat, fuel: nat)
        requires
            self.well_formed(),
            0 <= n < self.nodes.len(),
            0 <= k < self.nodes[n].inputs@.len(),
            self.inputs[self.input_of(n, k)].typ is CSGNode,
            match self.connections[self.input_of(n, k)] {
                None => true,
                Some(o) => depth > 0 && self.starved(self.owner(o as int), (depth - 1) as nat),
            },
        ensures
            self.input_value(self.input_of(n, k), fuel) == ValueType::CSGNode(None),
        decreases depth, 0nat,
    {
        let i = self.input_of(n, k);
        assert(self.links_ok(n));
        assert(self.input_ok(i));
        if let Some(o) = self.connections[i] {
            assert(self.output_ok(o as int));
            let m = self.owner(o as int);
            assert(self.is_bare(m) || self.is_built(m));
            if fuel > 0 {
                self.lemma_starved_node(m, (depth - 1) as nat, (fuel - 1) as nat);
            }
        }
    }

    /// A scene node upstream of which a scene is missing gives nothing,
    /// whatever the fuel.
    pub proof fn lemma_starved_node(self, n: int, depth: nat, fuel: nat)
        requires
            self.well_formed(),
            0 <= n < self.nodes.len(),
            self.nodes[n].user_data.template is CSGNode,
            self.starved(n, depth),
        ensures
            self.node_value(n, fuel) is None,
        decreases depth, 1nat,
    {
        let k = choose|k: int|
            0 <= k < self.nodes[n].inputs@.len() && (#[trigger] self.inputs[self.input_of(n, k)]).typ
                is CSGNode && match self.connections[self.input_of(n, k)] {
                None => true,
                Some(o) => depth > 0 && self.starved(self.owner(o as int), (depth - 1) as nat),
            };
        self.lemma_starved_input(n, k, depth, fuel);
        assert(self.links_ok(n));
        assert(self.is_bare(n) || self.is_built(n));
        let node = self.nodes[n];
        let template = node.user_data.template->CSGNode_0;
        let declared = template.spec_input_params();
        assert(node.inputs@[0].0@ == declared[0].0);
        assert(node.inputs@[1].0@ == declared[1].0);
        assert(node.inputs@[k].0@ == declared[k].0);
        reveal_strlit("A");
        reveal_strlit("B");
        assert("A"@ != "B"@) by {
            assert("A"@[0] == 'A');
            assert("B"@[0] == 'B');
        }
        let first = self.input_value(self.input_of(n, 0), fuel);
        let second = self.input_value(self.input_of(n, 1), fuel);
        assert(self.resolved(n, fuel, 0) == Map::<Seq<char>, ValueType>::empty());
        assert(self.resolved(n, fuel, 1) == Map::<Seq<char>, ValueType>::empty().insert(
            node.inputs@[0].0@,
            first,
        ));
        assert(self.resolved(n, fuel, 2) == self.resolved(n, fuel, 1).insert(
            node.inputs@[1].0@,
            second,
        ));
    }

    /// A missing scene propagates: where a scene input anywhere upstream
    /// of the root is not connected, the graph stands for no scene, however
    /// deep the gap lies.
    pub proof fn lemma_none_propagates(self, depth: nat)
        requires
            self.well_formed(),
            self.root_from(0) matches Some(root) && self.starved(root, depth),
        ensures
            self.scene() is None,
    {
        let root = self.root_from(0).unwrap();
        self.lemma_root_from(0);
        assert(self.links_ok(root));
        assert(self.is_bare(root) || self.is_built(root));
        let k = choose|k: int|
            0 <= k < self.nodes[root].inputs@.len() && (#[trigger] self.inputs[self.input_of(
                root,
                k,
            )]).typ is CSGNode && match self.connections[self.input_of(root, k)] {
                None => true,
                Some(o) => depth > 0 && self.starved(self.owner(o as int), (depth - 1) as nat),
            };
        assert(k == 0);
        assert(self.nodes[root].inputs@[0].0@ == "SDF"@);
        assert(Node::find(self.nodes[root].inputs@, "SDF"@) == Some(self.nodes[root].inputs@[0].1));
        if exists|fuel: nat| self.settles(root, fuel) {
            let fuel = choose|fuel: nat| self.settles(root, fuel);
            self.lemma_starved_input(root, 0, depth, fuel);
        }
    }

    /// The first root from `from` on is a root, and no node before it is.
    pub proof fn lemma_root_from(self, from: int)
        requires
            0 <= from,
        ensures
            self.root_from(from) matches Some(root) ==> from <= root < self.nodes.len()
                && self.is_root(root) && forall|n: int| from <= n < root ==> !self.is_root(n),
            self.root_from(from) is None ==> forall|n: int|
                from <= n < self.nodes.len() ==> !self.is_root(n),
        decreases self.nodes.len() - from,
    {
        if from < self.nodes.len() && !self.is_root(from) {
            self.lemma_root_from(from + 1);
        }
    }
}

impl Parts {
    /// Whether an input of node `from` is connected to an output of node
    /// `to`.
    pub open spec fn feeds(self, to: int, from: int) -> bool {
        exists|k: int|
            0 <= k < self.nodes[from].inputs@.len() && (
            #[trigger] self.connections[self.input_of(from, k)] matches Some(o) && self.owner(
                o as int,
            ) == to)
    }

    /// Whether `steps` connections lead from an input of node `from`
    /// upstream to node `to`.
    pub open spec fn reaches(self, from: int, to: int, steps: nat) -> bool
        decreases steps,
    {
        if steps == 0 {
            from == to
        } else {
            exists|via: int| #[trigger]
                self.feeds(via, from) && self.reaches(via, to, (steps - 1) as nat)
        }
    }

    /// Whether node `to` lies upstream of node `from`: one connection or
    /// more lead from `from` to it.
    pub open spec fn upstream(self, from: int, to: int) -> bool {
        exists|steps: nat| steps > 0 && #[trigger] self.reaches(from, to, steps)
    }

    /// In a well-formed graph connections lead to nodes of the graph.
    pub proof fn lemma_feeds_in_range(self, to: int, from: int)
        requires
            self.well_formed(),
            0 <= from < self.nodes.len(),
            self.feeds(to, from),
        ensures
            0 <= to < self.nodes.len(),
    {
        let k = choose|k: int|
            0 <= k < self.nodes[from].inputs@.len() && (
            #[trigger] self.connections[self.input_of(from, k)] matches Some(o) && self.owner(
                o as int,
            ) == to);
        assert(self.links_ok(from));
        assert(self.input_ok(self.input_of(from, k)));
        assert(self.output_ok(self.connections[self.input_of(from, k)].unwrap() as int));
    }

    /// A path can be made longer by one connection at its far end.
    pub proof fn lemma_reaches_further(self, from: int, via: int, to: int, steps: nat)
        requires
            self.reaches(from, via, steps),
            self.feeds(to, via),
        ensures
            self.reaches(from, to, steps + 1),
        decreases steps,
    {
        if steps == 0 {
            assert(self.feeds(to, from) && self.reaches(to, to, 0));
        } else {
            let next = choose|next: int| #[trigger]
                self.feeds(next, from) && self.reaches(next, via, (steps - 1) as nat);
            self.lemma_reaches_further(next, via, to, (steps - 1) as nat);
            assert(self.feeds(next, from) && self.reaches(next, to, steps));
        }
    }
}

impl Parts {
    /// The nodes evaluated once node `n` has been, where `seen` were the
    /// nodes evaluated before: whatever the inputs of `n` ask for, then `n`
    /// itself.
    pub open spec fn visit(self, n: int, seen: Seq<NodeId>, fuel: nat) -> Seq<NodeId>
        decreases fuel, 1nat, 0nat,
    {
        self.visit_inputs(n, seen, fuel, self.nodes[n].inputs@.len()).push(n as usize)
    }

    /// The nodes evaluated once the first `count` inputs of node `n` have
    /// their values, where `seen` were the nodes evaluated before: input
    /// after input, an input that is connected to a node not yet evaluated
    /// has that node evaluated, and no other input adds anything.
    pub open spec fn visit_inputs(self, n: int, seen: Seq<NodeId>, fuel: nat, count: nat) -> Seq<
        NodeId,
    >
        decreases fuel, 0nat, count,
    {
        if count == 0 {
            seen
        } else {
            let before = self.visit_inputs(n, seen, fuel, (count - 1) as nat);
            match self.connections[self.input_of(n, count - 1)] {
                Some(o) => if fuel == 0 || before.contains(self.owner(o as int) as usize) {
                    before
                } else {
                    self.visit(self.owner(o as int), before, (fuel - 1) as nat)
                },
                None => before,
            }
        }
    }

    /// Once a node settles, more fuel does not change what evaluating it
    /// evaluates.
    pub proof fn lemma_visit_settled(self, n: int, seen: Seq<NodeId>, fuel: nat, more: nat)
        requires
            self.settles(n, fuel),
            fuel <= more,
        ensures
            self.visit(n, seen, more) == self.visit(n, seen, fuel),
            forall|count: nat|
                count <= self.nodes[n].inputs@.len() ==> #[trigger] self.visit_inputs(
                    n,
                    seen,
                    more,
                    count,
                ) == self.visit_inputs(n, seen, fuel, count),
        decreases fuel, 1nat, 0nat,
    {
        assert forall|count: nat| count <= self.nodes[n].inputs@.len() implies
            #[trigger] self.visit_inputs(n, seen, more, count) == self.visit_inputs(
            n,
            seen,
            fuel,
            count,
        ) by {
            self.lemma_visit_inputs_settled(n, seen, fuel, more, count);
        }
        let all = self.nodes[n].inputs@.len();
        assert(self.visit_inputs(n, seen, more, all) == self.visit_inputs(n, seen, fuel, all));
    }

    /// The step of `lemma_visit_settled` for the inputs of the node.
    proof fn lemma_visit_inputs_settled(
        self,
        n: int,
        seen: Seq<NodeId>,
        fuel: nat,
        more: nat,
        count: nat,
    )
        requires
            self.settles(n, fuel),
            fuel <= more,
            count <= self.nodes[n].inputs@.len(),
        ensures
            self.visit_inputs(n, seen, more, count) == self.visit_inputs(n, seen, fuel, count),
        decreases fuel, 0nat, count,
    {
        if count > 0 {
            self.lemma_visit_inputs_settled(n, seen, fuel, more, (count - 1) as nat);
            let before = self.visit_inputs(n, seen, fuel, (count - 1) as nat);
            if let Some(o) = self.connections[self.input_of(n, count - 1)] {
                let m = self.owner(o as int);
                assert(fuel > 0 && self.settles(m, (fuel - 1) as nat));
                self.lemma_visit_settled(m, before, (fuel - 1) as nat, (more - 1) as nat);
            }
        }
    }
}

} // verus!
