//! The node graph that an editor builds: nodes with typed sockets, and
//! connections from output sockets to input sockets.
//!
//! Nodes, inputs and outputs live in three arenas and are named by their
//! index. Every graph is well formed: sockets and nodes point at each other,
//! constants and connections respect the types of the sockets, and a node
//! has either no sockets yet or exactly those that its template declares.

use vstd::prelude::*;
use crate::template::{
    BoxTemplate, CSGNodeTemplate, CSGNodeTemplateTrait, DeclaredInput, SphereTemplate,
    SubtractionTemplate, UnionTemplate,
};
use crate::value::{DataType, InputParamKind, ValueType};

verus! {

pub type NodeId = usize;

pub type InputId = usize;

pub type OutputId = usize;

/// What a node is: the root, whose one input is the scene to render, or a
/// scene node of some kind.
#[derive(Debug, Clone, Copy, PartialEq, Eq, Structural)]
pub enum NodeTemplate {
    Root,
    CSGNode(CSGNodeTemplate),
}

/// What a node carries besides its sockets.
#[derive(Debug, Clone, Copy, PartialEq, Eq, Structural)]
pub struct NodeData {
    pub template: NodeTemplate,
}

/// What a node may answer to its editor: nothing.
#[derive(Debug, Clone, Copy, PartialEq, Eq, Structural)]
pub struct Response;

/// State that an editor shares among its nodes: none.
#[derive(Debug, Clone, Copy, PartialEq, Eq, Structural)]
pub struct GraphState;

impl Default for GraphState {
    fn default() -> (state: Self)
        ensures
            state == GraphState,
    {
        GraphState
    }
}

/// The list of the templates that an editor offers.
#[derive(Debug, Clone, Copy, PartialEq, Eq, Structural)]
pub struct AllNodeTemplates;

/// An input socket.
#[derive(Debug)]
pub struct InputParam {
    pub id: InputId,
    /// The type of value that the socket takes.
    pub typ: DataType,
    pub kind: InputParamKind,
    /// The constant that stands in where no connection brings a value.
    pub value: ValueType,
    /// The node that the socket belongs to.
    pub node: NodeId,
}

/// An output socket.
#[derive(Debug)]
pub struct OutputParam {
    pub id: OutputId,
    /// The node that the socket belongs to.
    pub node: NodeId,
    /// The type of value that the socket gives.
    pub typ: DataType,
}

/// A node: its sockets by name, in the order in which they were added.
#[derive(Debug)]
pub struct Node {
    pub id: NodeId,
    pub label: String,
    pub inputs: Vec<(String, InputId)>,
    pub outputs: Vec<(String, OutputId)>,
    pub user_data: NodeData,
}

/// The one input of a root: the scene to render, which only a connection
/// can bring.
pub open spec fn root_inputs() -> Seq<DeclaredInput> {
    seq![("SDF"@, ValueType::CSGNode(None), InputParamKind::ConnectionOnly)]
}

/// Whether an input of type `typ` and kind `kind` may hold the constant
/// `value`: an input is connection-only exactly if it takes a scene, and
/// then its constant is no scene.
pub open spec fn constant_ok(typ: DataType, value: ValueType, kind: InputParamKind) -> bool {
    &&& value.spec_data_type() == typ
    &&& kind is ConnectionOnly <==> typ is CSGNode
    &&& kind is ConnectionOnly ==> value == ValueType::CSGNode(None)
}

/// Whether `input` is the input number `id` of node `node` as `declared`
/// declares it, with the declared constant in place.
pub open spec fn input_is(input: InputParam, id: int, node: int, declared: DeclaredInput) -> bool {
    &&& input.id == id
    &&& input.node == node
    &&& input.typ == declared.1.spec_data_type()
    &&& input.kind == declared.2
    &&& input.value == declared.1
}

/// Whether `after` is the node `before` but for its sockets.
pub open spec fn same_node(before: Node, after: Node) -> bool {
    &&& after.id == before.id
    &&& after.label == before.label
    &&& after.user_data == before.user_data
}

impl NodeTemplate {
    /// The inputs that a node of this template has.
    pub open spec fn declared_inputs(self) -> Seq<DeclaredInput> {
        match self {
            NodeTemplate::Root => root_inputs(),
            NodeTemplate::CSGNode(template) => template.spec_input_params(),
        }
    }

    /// The number of outputs that a node of this template has.
    pub open spec fn declared_outputs(self) -> nat {
        match self {
            NodeTemplate::Root => 0,
            NodeTemplate::CSGNode(_) => 1,
        }
    }

    /// The label of a node of this template.
    pub open spec fn spec_label(self) -> Seq<char> {
        match self {
            NodeTemplate::Root => "Root"@,
            NodeTemplate::CSGNode(template) => template.spec_name(),
        }
    }

    /// Every declared input respects the rule on constants.
    pub proof fn lemma_declared_constants(self, k: int)
        requires
            0 <= k < self.declared_inputs().len(),
        ensures
            constant_ok(
                self.declared_inputs()[k].1.spec_data_type(),
                self.declared_inputs()[k].1,
                self.declared_inputs()[k].2,
            ),
    {
    }
}

/// The contents of a graph as sequences: nodes, inputs, outputs, and for
/// each input the output that it is connected to.
pub struct Parts {
    pub nodes: Seq<Node>,
    pub inputs: Seq<InputParam>,
    pub outputs: Seq<OutputParam>,
    pub connections: Seq<Option<OutputId>>,
}

impl Parts {
    /// The sockets that node `n` lists are its own.
    pub open spec fn links_ok(self, n: int) -> bool {
        let node = self.nodes[n];
        &&& node.id == n
        &&& forall|k: int|
            0 <= k < node.inputs@.len() ==> {
                &&& (#[trigger] node.inputs@[k]).1 < self.inputs.len()
                &&& self.inputs[node.inputs@[k].1 as int].node == n
            }
        &&& forall|k: int|
            0 <= k < node.outputs@.len() ==> {
                &&& (#[trigger] node.outputs@[k]).1 < self.outputs.len()
                &&& self.outputs[node.outputs@[k].1 as int].node == n
            }
    }

    /// The first `count` inputs of node `n` are those that `declared`
    /// starts with, by name, type and kind.
    pub open spec fn inputs_match(self, n: int, declared: Seq<DeclaredInput>, count: int) -> bool {
        let node = self.nodes[n];
        &&& count <= declared.len()
        &&& node.inputs@.len() == count
        &&& forall|k: int|
            0 <= k < count ==> {
                &&& (#[trigger] node.inputs@[k]).0@ == declared[k].0
                &&& self.inputs[node.inputs@[k].1 as int].typ == declared[k].1.spec_data_type()
                &&& self.inputs[node.inputs@[k].1 as int].kind == declared[k].2
            }
    }

    /// Node `n` has no sockets yet.
    pub open spec fn is_bare(self, n: int) -> bool {
        self.nodes[n].inputs@.len() == 0 && self.nodes[n].outputs@.len() == 0
    }

    /// Node `n` has the sockets that its template declares: a root the
    /// input `SDF`, a scene node its declared inputs and the output `SDF`.
    pub open spec fn is_built(self, n: int) -> bool {
        let node = self.nodes[n];
        let template = node.user_data.template;
        &&& self.inputs_match(
            n,
            template.declared_inputs(),
            template.declared_inputs().len() as int,
        )
        &&& node.outputs@.len() == template.declared_outputs()
        &&& template.declared_outputs() == 1 ==> node.outputs@[0].0@ == "SDF"@
    }

    /// Input `i` is in place, holds a constant that it may hold, and is
    /// connected, if at all, to an output of its type.
    pub open spec fn input_ok(self, i: int) -> bool {
        let input = self.inputs[i];
        &&& input.id == i
        &&& input.node < self.nodes.len()
        &&& constant_ok(input.typ, input.value, input.kind)
        &&& self.connections[i] matches Some(o) ==> o < self.outputs.len()
            && self.outputs[o as int].typ == input.typ
    }

    /// Output `o` is in place, gives a scene, and is the one output of its
    /// node.
    pub open spec fn output_ok(self, o: int) -> bool {
        let output = self.outputs[o];
        &&& output.id == o
        &&& output.typ == DataType::CSGNode
        &&& output.node < self.nodes.len()
        &&& self.nodes[output.node as int].outputs@.len() == 1
        &&& self.nodes[output.node as int].outputs@[0].1 == o
    }

    /// Everything but whether each node has its sockets.
    pub open spec fn linked(self) -> bool {
        &&& self.connections.len() == self.inputs.len()
        &&& forall|n: int| 0 <= n < self.nodes.len() ==> #[trigger] self.links_ok(n)
        &&& forall|i: int| 0 <= i < self.inputs.len() ==> #[trigger] self.input_ok(i)
        &&& forall|o: int| 0 <= o < self.outputs.len() ==> #[trigger] self.output_ok(o)
    }

    /// The graph is consistent: sockets and nodes point at each other,
    /// constants and connections respect the types, and every node is
    /// either bare or has the sockets of its template.
    pub open spec fn well_formed(self) -> bool {
        &&& self.linked()
        &&& forall|n: int|
            0 <= n < self.nodes.len() ==> #[trigger] self.is_bare(n) || self.is_built(n)
    }

    /// The nodes of `after` but node `n` are those of `self`, and node `n`
    /// is the same node but for its sockets.
    pub open spec fn others_kept(self, n: int, after: Parts) -> bool {
        &&& after.nodes.len() == self.nodes.len()
        &&& forall|m: int| 0 <= m < self.nodes.len() && m != n ==> after.nodes[m] == self.nodes[m]
        &&& same_node(self.nodes[n], after.nodes[n])
    }

    /// What `after` holds once node `n`, bare in `self` if it is there at
    /// all, has got the sockets of `template`: the new inputs stand behind
    /// the old ones, in the order of their declaration, each with its
    /// declared constant and not connected; the output of a scene node
    /// stands behind the old outputs; no other socket has changed.
    pub open spec fn sockets_added(self, n: int, template: NodeTemplate, after: Parts) -> bool {
        let declared = template.declared_inputs();
        let node = after.nodes[n];
        let first = self.inputs.len();
        &&& after.inputs.len() == first + declared.len()
        &&& after.inputs.take(first as int) == self.inputs
        &&& after.connections.len() == after.inputs.len()
        &&& after.connections.take(first as int) == self.connections
        &&& node.inputs@.len() == declared.len()
        &&& forall|k: int|
            0 <= k < declared.len() ==> {
                &&& (#[trigger] node.inputs@[k]).0@ == declared[k].0
                &&& node.inputs@[k].1 == first + k
                &&& input_is(after.inputs[first + k], first + k, n, declared[k])
                &&& after.connections[first + k] is None
            }
        &&& after.outputs.len() == self.outputs.len() + template.declared_outputs()
        &&& after.outputs.take(self.outputs.len() as int) == self.outputs
        &&& node.outputs@.len() == template.declared_outputs()
        &&& template.declared_outputs() == 1 ==> {
            &&& node.outputs@[0].0@ == "SDF"@
            &&& node.outputs@[0].1 == self.outputs.len()
            &&& after.outputs[self.outputs.len() as int] == OutputParam {
                id: self.outputs.len() as usize,
                node: n as usize,
                typ: DataType::CSGNode,
            }
        }
    }

    /// What `after` holds once node `n` of `self`, bare until then, has got
    /// the sockets of its template: those sockets, and nothing else that is
    /// new.
    pub open spec fn built_into(self, n: int, after: Parts) -> bool {
        &&& self.others_kept(n, after)
        &&& self.sockets_added(n, self.nodes[n].user_data.template, after)
    }

    /// Nodes and sockets of `self` are what they are in `other`, whatever
    /// the connections and constants.
    pub open spec fn same_shape(self, other: Parts) -> bool {
        &&& self.nodes == other.nodes
        &&& self.outputs == other.outputs
        &&& self.inputs.len() == other.inputs.len()
        &&& self.connections.len() == other.connections.len()
        &&& forall|i: int|
            0 <= i < self.inputs.len() ==> {
                &&& (#[trigger] self.inputs[i]).id == other.inputs[i].id
                &&& self.inputs[i].typ == other.inputs[i].typ
                &&& self.inputs[i].kind == other.inputs[i].kind
                &&& self.inputs[i].node == other.inputs[i].node
            }
    }

    /// A graph of the shape of a well-formed one is well formed if its own
    /// constants and connections respect the types.
    pub proof fn lemma_same_shape(self, other: Parts)
        requires
            other.well_formed(),
            self.same_shape(other),
            forall|i: int| 0 <= i < self.inputs.len() ==> #[trigger] self.input_ok(i),
        ensures
            self.well_formed(),
    {
        assert forall|n: int| 0 <= n < self.nodes.len() implies #[trigger] self.links_ok(n) by {
            assert(other.links_ok(n));
        }
        assert forall|o: int| 0 <= o < self.outputs.len() implies #[trigger] self.output_ok(o) by {
            assert(other.output_ok(o));
        }
        assert forall|n: int| 0 <= n < self.nodes.len() implies #[trigger] self.is_bare(n)
            || self.is_built(n) by {
            assert(other.is_bare(n) || other.is_built(n));
            assert(other.links_ok(n));
        }
    }

    /// Sockets that are added behind those of a linked graph, with the
    /// links that they need, leave the graph linked.
    proof fn lemma_still_linked(self, before: Parts)
        requires
            before.linked(),
            self.nodes.len() == before.nodes.len(),
            self.connections.len() == self.inputs.len(),
            before.inputs.len() <= self.inputs.len(),
            before.outputs.len() <= self.outputs.len(),
            self.inputs.take(before.inputs.len() as int) == before.inputs,
            self.outputs.take(before.outputs.len() as int) == before.outputs,
            self.connections.take(before.inputs.len() as int) == before.connections,
            forall|n: int| 0 <= n < self.nodes.len() ==> #[trigger] self.links_ok(n),
            forall|n: int|
                0 <= n < self.nodes.len() ==> (#[trigger] self.nodes[n]).outputs
                    == before.nodes[n].outputs || before.nodes[n].outputs@.len() == 0,
            forall|i: int|
                before.inputs.len() <= i < self.inputs.len() ==> #[trigger] self.input_ok(i),
            forall|o: int|
                before.outputs.len() <= o < self.outputs.len() ==> #[trigger] self.output_ok(o),
        ensures
            self.linked(),
    {
        assert forall|i: int| 0 <= i < self.inputs.len() implies #[trigger] self.input_ok(i) by {
            if i < before.inputs.len() {
                assert(before.input_ok(i));
                assert(self.inputs.take(before.inputs.len() as int)[i] == self.inputs[i]);
                assert(self.connections.take(before.inputs.len() as int)[i] == self.connections[i]);
                if let Some(o) = before.connections[i] {
                    assert(self.outputs.take(before.outputs.len() as int)[o as int]
                        == self.outputs[o as int]);
                }
            }
        }
        assert forall|o: int| 0 <= o < self.outputs.len() implies #[trigger] self.output_ok(o) by {
            if o < before.outputs.len() {
                assert(before.output_ok(o));
                assert(self.outputs.take(before.outputs.len() as int)[o] == self.outputs[o]);
                let n = before.outputs[o].node as int;
                assert(self.nodes[n].outputs == before.nodes[n].outputs);
            }
        }
    }

    /// Nodes that are left as they were, in a graph whose old sockets are
    /// left as they were, are bare or built as before.
    proof fn lemma_still_built(self, before: Parts, n: int)
        requires
            before.well_formed(),
            0 <= n < before.nodes.len(),
            self.nodes[n] == before.nodes[n],
            before.inputs.len() <= self.inputs.len(),
            self.inputs.take(before.inputs.len() as int) == before.inputs,
        ensures
            self.is_bare(n) || self.is_built(n),
    {
        assert(before.is_bare(n) || before.is_built(n));
        assert(before.links_ok(n));
        let node = before.nodes[n];
        assert forall|k: int| 0 <= k < node.inputs@.len() implies self.inputs[(
        #[trigger] node.inputs@[k]).1 as int] == before.inputs[node.inputs@[k].1 as int] by {
            assert(self.inputs.take(before.inputs.len() as int)[node.inputs@[k].1 as int]
                == self.inputs[node.inputs@[k].1 as int]);
        }
    }
}

/// The arenas of a graph.
struct Store {
    nodes: Vec<Node>,
    inputs: Vec<InputParam>,
    outputs: Vec<OutputParam>,
    connections: Vec<Option<OutputId>>,
}

impl View for Store {
    type V = Parts;

    closed spec fn view(&self) -> Parts {
        Parts {
            nodes: self.nodes@,
            inputs: self.inputs@,
            outputs: self.outputs@,
            connections: self.connections@,
        }
    }
}

impl Store {
    /// Adds to node `node_id` an input with the given name, type, constant
    /// and kind, not connected, and gives its index.
    fn push_input(
        &mut self,
        node_id: NodeId,
        name: String,
        typ: DataType,
        value: ValueType,
        kind: InputParamKind,
    ) -> (id: InputId)
        requires
            old(self)@.linked(),
            node_id < old(self)@.nodes.len(),
            constant_ok(typ, value, kind),
        ensures
            final(self)@.linked(),
            old(self)@.others_kept(node_id as int, final(self)@),
            id == old(self)@.inputs.len(),
            final(self)@.inputs == old(self)@.inputs.push(
                InputParam { id, typ, kind, value, node: node_id },
            ),
            final(self)@.connections == old(self)@.connections.push(None),
            final(self)@.outputs == old(self)@.outputs,
            final(self)@.nodes[node_id as int].inputs@
                == old(self)@.nodes[node_id as int].inputs@.push((name, id)),
            final(self)@.nodes[node_id as int].outputs == old(self)@.nodes[node_id as int].outputs,
    {
        let ghost before = self@;
        let id: InputId = self.inputs.len();
        self.inputs.push(InputParam { id, typ, kind, value, node: node_id });
        self.connections.push(None);
        self.nodes[node_id].inputs.push((name, id));
        proof {
            let after = self@;
            assert(after.inputs.take(id as int) =~= before.inputs);
            assert(after.connections.take(id as int) =~= before.connections);
            assert(after.outputs.take(before.outputs.len() as int) =~= before.outputs);
            assert forall|n: int| 0 <= n < after.nodes.len() implies #[trigger] after.links_ok(
                n,
            ) by {
                assert(before.links_ok(n));
            }
            after.lemma_still_linked(before);
        }
        id
    }

    /// Adds to node `node_id`, which has no output yet, the scene output
    /// with the given name, and gives its index.
    fn push_output(&mut self, node_id: NodeId, name: String) -> (id: OutputId)
        requires
            old(self)@.linked(),
            node_id < old(self)@.nodes.len(),
            old(self)@.nodes[node_id as int].outputs@.len() == 0,
        ensures
            final(self)@.linked(),
            old(self)@.others_kept(node_id as int, final(self)@),
            id == old(self)@.outputs.len(),
            final(self)@.outputs == old(self)@.outputs.push(
                OutputParam { id, node: node_id, typ: DataType::CSGNode },
            ),
            final(self)@.inputs == old(self)@.inputs,
            final(self)@.connections == old(self)@.connections,
            final(self)@.nodes[node_id as int].outputs@ == seq![(name, id)],
            final(self)@.nodes[node_id as int].inputs == old(self)@.nodes[node_id as int].inputs,
    {
        let ghost before = self@;
        let id: OutputId = self.outputs.len();
        self.outputs.push(OutputParam { id, node: node_id, typ: DataType::CSGNode });
        self.nodes[node_id].outputs.push((name, id));
        proof {
            let after = self@;
            assert(after.nodes[node_id as int].outputs@ =~= seq![(name, id)]);
            assert(after.inputs.take(before.inputs.len() as int) =~= before.inputs);
            assert(after.connections.take(before.inputs.len() as int) =~= before.connections);
            assert(after.outputs.take(id as int) =~= before.outputs);
            assert forall|n: int| 0 <= n < after.nodes.len() implies #[trigger] after.links_ok(
                n,
            ) by {
                assert(before.links_ok(n));
            }
            after.lemma_still_linked(before);
        }
        id
    }

    /// Gives node `node_id`, bare until then, the sockets that `template`
    /// declares.
    fn build_node(&mut self, template: &NodeTemplate, node_id: NodeId)
        requires
            old(self)@.well_formed(),
            node_id < old(self)@.nodes.len(),
            old(self)@.is_bare(node_id as int),
            old(self)@.nodes[node_id as int].user_data.template == *template,
        ensures
            final(self)@.well_formed(),
            final(self)@.is_built(node_id as int),
            old(self)@.built_into(node_id as int, final(self)@),
    {
        let ghost before = self@;
        let ghost n = node_id as int;
        let ghost first = before.inputs.len();
        let ghost declared = template.declared_inputs();
        let params = match template {
            NodeTemplate::Root => {
                let params = vec![
                    ("SDF", ValueType::CSGNode(None), InputParamKind::ConnectionOnly),
                ];
                assert(crate::template::declared(params@) =~= root_inputs());
                params
            },
            NodeTemplate::CSGNode(template) => template.input_params(),
        };
        assert(params@.len() == declared.len()) by {
            assert(crate::template::declared(params@).len() == params@.len());
        }
        let mut k: usize = 0;
        while k < params.len()
            invariant
                k <= params@.len(),
                crate::template::declared(params@) == declared,
                params@.len() == declared.len(),
                declared == template.declared_inputs(),
                before == old(self)@,
                before.well_formed(),
                n == node_id as int,
                0 <= n < before.nodes.len(),
                before.is_bare(n),
                first == before.inputs.len(),
                self@.linked(),
                before.others_kept(n, self@),
                self@.outputs == before.outputs,
                self@.nodes[n].outputs@.len() == 0,
                self@.nodes[n].inputs@.len() == k,
                self@.inputs.len() == first + k,
                self@.inputs.take(first as int) == before.inputs,
                self@.connections.take(first as int) == before.connections,
                forall|j: int|
                    0 <= j < k ==> {
                        &&& (#[trigger] self@.nodes[n].inputs@[j]).0@ == declared[j].0
                        &&& self@.nodes[n].inputs@[j].1 == first + j
                        &&& input_is(self@.inputs[first + j], first + j, n, declared[j])
                        &&& self@.connections[first + j] is None
                    },
            decreases params@.len() - k,
        {
            let ghost then = self@;
            let name = params[k].0;
            let value = params[k].1.clone();
            let kind = params[k].2;
            let typ = value.data_type();
            proof {
                assert(crate::template::declared(params@)[k as int] == (name@, value, kind));
                template.lemma_declared_constants(k as int);
            }
            self.push_input(node_id, name.to_owned(), typ, value, kind);
            k += 1;
            proof {
                let now = self@;
                assert(now.inputs.take(first as int) =~= then.inputs.take(first as int));
                assert(now.connections.take(first as int) =~= then.connections.take(first as int));
                assert forall|j: int| 0 <= j < k implies {
                    &&& (#[trigger] now.nodes[n].inputs@[j]).0@ == declared[j].0
                    &&& now.nodes[n].inputs@[j].1 == first + j
                    &&& input_is(now.inputs[first + j], first + j, n, declared[j])
                    &&& now.connections[first + j] is None
                } by {
                    if j < k - 1 {
                        assert(now.nodes[n].inputs@[j] == then.nodes[n].inputs@[j]);
                        assert(now.inputs[first + j] == then.inputs[first + j]);
                        assert(now.connections[first + j] == then.connections[first + j]);
                    }
                }
            }
        }
        let ghost with_inputs = self@;
        match template {
            NodeTemplate::Root => {},
            NodeTemplate::CSGNode(_) => {
                self.push_output(node_id, "SDF".to_owned());
            },
        }
        proof {
            let after = self@;
            let node = after.nodes[n];
            assert(after.outputs.take(before.outputs.len() as int) =~= before.outputs);
            assert forall|j: int| 0 <= j < declared.len() implies {
                &&& (#[trigger] node.inputs@[j]).0@ == declared[j].0
                &&& node.inputs@[j].1 == first + j
                &&& input_is(after.inputs[first + j], first + j, n, declared[j])
                &&& after.connections[first + j] is None
            } by {
                assert(node.inputs@[j] == with_inputs.nodes[n].inputs@[j]);
            }
            assert(before.sockets_added(n, *template, after));
            assert(after.is_built(n)) by {
                assert(after.links_ok(n));
            }
            assert forall|m: int| 0 <= m < after.nodes.len() implies #[trigger] after.is_bare(m)
                || after.is_built(m) by {
                if m != n {
                    after.lemma_still_built(before, m);
                }
            }
        }
    }
}

/// A graph of nodes, sockets and connections.
pub struct Graph {
    store: Store,
}

impl View for Graph {
    type V = Parts;

    closed spec fn view(&self) -> Parts {
        self.store@
    }
}

impl Graph {
    #[verifier::type_invariant]
    pub open spec fn inv(self) -> bool {
        self@.well_formed()
    }

    /// A graph without nodes.
    pub fn new() -> (graph: Self)
        ensures
            graph@.nodes.len() == 0,
            graph@.inputs.len() == 0,
            graph@.outputs.len() == 0,
            graph@.connections.len() == 0,
    {
        Graph {
            store: Store {
                nodes: Vec::new(),
                inputs: Vec::new(),
                outputs: Vec::new(),
                connections: Vec::new(),
            },
        }
    }

    /// Takes the arenas out of the graph and leaves it empty.
    fn take(&mut self) -> (store: Store)
        ensures
            store@ == old(self)@,
            store@.well_formed(),
    {
        proof {
            use_type_invariant(&*self);
        }
        let mut taken = Graph::new();
        std::mem::swap(self, &mut taken);
        let Graph { store } = taken;
        store
    }

    pub fn nodes(&self) -> (nodes: &Vec<Node>)
        ensures
            nodes@ == self@.nodes,
    {
        &self.store.nodes
    }

    pub fn inputs(&self) -> (inputs: &Vec<InputParam>)
        ensures
            inputs@ == self@.inputs,
    {
        &self.store.inputs
    }

    pub fn outputs(&self) -> (outputs: &Vec<OutputParam>)
        ensures
            outputs@ == self@.outputs,
    {
        &self.store.outputs
    }

    /// The output that input `input` is connected to, if it exists and is
    /// connected.
    pub fn connection(&self, input: InputId) -> (output: Option<OutputId>)
        ensures
            output == if input < self@.connections.len() {
                self@.connections[input as int]
            } else {
                None
            },
    {
        if input < self.store.connections.len() {
            self.store.connections[input]
        } else {
            None
        }
    }

    /// Adds a node without sockets and gives its index.
    pub fn insert_node(&mut self, label: String, user_data: NodeData) -> (id: NodeId)
        ensures
            id == old(self)@.nodes.len(),
            final(self)@.nodes.len() == id + 1,
            final(self)@.nodes.take(id as int) == old(self)@.nodes,
            final(self)@.nodes[id as int].id == id,
            final(self)@.nodes[id as int].label == label,
            final(self)@.nodes[id as int].user_data == user_data,
            final(self)@.is_bare(id as int),
            final(self)@.inputs == old(self)@.inputs,
            final(self)@.outputs == old(self)@.outputs,
            final(self)@.connections == old(self)@.connections,
    {
        let ghost before = self@;
        let mut store = self.take();
        let id: NodeId = store.nodes.len();
        store.nodes.push(Node { id, label, inputs: Vec::new(), outputs: Vec::new(), user_data });
        proof {
            let after = store@;
            assert(after.nodes.take(id as int) =~= before.nodes);
            assert(after.inputs.take(before.inputs.len() as int) =~= before.inputs);
            assert(after.outputs.take(before.outputs.len() as int) =~= before.outputs);
            assert(after.connections.take(before.inputs.len() as int) =~= before.connections);
            assert forall|n: int| 0 <= n < after.nodes.len() implies #[trigger] after.links_ok(
                n,
            ) by {
                if n < id {
                    assert(before.links_ok(n));
                }
            }
            assert forall|i: int| 0 <= i < after.inputs.len() implies #[trigger] after.input_ok(
                i,
            ) by {
                assert(before.input_ok(i));
            }
            assert forall|o: int| 0 <= o < after.outputs.len() implies #[trigger] after.output_ok(
                o,
            ) by {
                assert(before.output_ok(o));
            }
            assert forall|n: int| 0 <= n < after.nodes.len() implies #[trigger] after.is_bare(n)
                || after.is_built(n) by {
                if n < id {
                    after.lemma_still_built(before, n);
                }
            }
        }
        *self = Graph { store };
        id
    }

    /// Adds a node of the given template, with the sockets that the
    /// template declares, and gives its index.
    pub fn add_node(&mut self, template: NodeTemplate, user_state: &mut GraphState) -> (id: NodeId)
        ensures
            id == old(self)@.nodes.len(),
            final(self)@.nodes.len() == id + 1,
            final(self)@.nodes.take(id as int) == old(self)@.nodes,
            final(self)@.nodes[id as int].id == id,
            final(self)@.nodes[id as int].label@ == template.spec_label(),
            final(self)@.nodes[id as int].user_data == (NodeData { template }),
            final(self)@.is_built(id as int),
            old(self)@.sockets_added(id as int, template, final(self)@),
            *final(user_state) == *old(user_state),
    {
        let label = template.node_graph_label(user_state);
        let user_data = template.user_data(user_state);
        let ghost before = self@;
        let id = self.insert_node(label, user_data);
        let ghost bare = self@;
        template.build_node(self, user_state, id);
        proof {
            assert(self@.nodes.take(id as int) =~= before.nodes) by {
                assert forall|m: int| 0 <= m < id implies self@.nodes[m] == before.nodes[m] by {
                    assert(bare.nodes.take(id as int)[m] == bare.nodes[m]);
                }
            }
        }
        id
    }

    /// Connects `input` to `output` and says whether it did. It does where
    /// both exist and have the same type; a connection that `input` had
    /// before is replaced. Otherwise nothing changes.
    pub fn add_connection(&mut self, output: OutputId, input: InputId) -> (connected: bool)
        ensures
            connected == (input < old(self)@.inputs.len() && output < old(self)@.outputs.len()
                && old(self)@.outputs[output as int].typ == old(self)@.inputs[input as int].typ),
            final(self)@.nodes == old(self)@.nodes,
            final(self)@.inputs == old(self)@.inputs,
            final(self)@.outputs == old(self)@.outputs,
            final(self)@.connections == if connected {
                old(self)@.connections.update(input as int, Some(output))
            } else {
                old(self)@.connections
            },
    {
        proof {
            use_type_invariant(&*self);
        }
        if input >= self.store.inputs.len() || output >= self.store.outputs.len() {
            return false;
        }
        if self.store.outputs[output].typ != self.store.inputs[input].typ {
            return false;
        }
        let ghost before = self@;
        let mut store = self.take();
        store.connections.set(input, Some(output));
        proof {
            assert forall|i: int| 0 <= i < store@.inputs.len() implies #[trigger] store@.input_ok(
                i,
            ) by {
                assert(before.input_ok(i));
            }
            store@.lemma_same_shape(before);
        }
        *self = Graph { store };
        true
    }

    /// Takes away the connection of `input` and gives the output that it
    /// led to, if there was one.
    pub fn remove_connection(&mut self, input: InputId) -> (removed: Option<OutputId>)
        ensures
            removed == if input < old(self)@.connections.len() {
                old(self)@.connections[input as int]
            } else {
                None
            },
            final(self)@.nodes == old(self)@.nodes,
            final(self)@.inputs == old(self)@.inputs,
            final(self)@.outputs == old(self)@.outputs,
            final(self)@.connections == if input < old(self)@.connections.len() {
                old(self)@.connections.update(input as int, None)
            } else {
                old(self)@.connections
            },
    {
        if input >= self.store.connections.len() {
            return None;
        }
        let removed = self.store.connections[input];
        let ghost before = self@;
        let mut store = self.take();
        store.connections.set(input, None);
        proof {
            assert forall|i: int| 0 <= i < store@.inputs.len() implies #[trigger] store@.input_ok(
                i,
            ) by {
                assert(before.input_ok(i));
            }
            store@.lemma_same_shape(before);
        }
        *self = Graph { store };
        removed
    }

    /// Sets the constant of `input` and says whether it did. It does where
    /// the input exists, may hold a constant, and `value` has its type.
    /// Otherwise nothing changes.
    pub fn set_input_value(&mut self, input: InputId, value: ValueType) -> (set: bool)
        ensures
            set == (input < old(self)@.inputs.len() && old(self)@.inputs[input as int].kind
                is ConnectionOrConstant && value.spec_data_type()
                == old(self)@.inputs[input as int].typ),
            final(self)@.nodes == old(self)@.nodes,
            final(self)@.outputs == old(self)@.outputs,
            final(self)@.connections == old(self)@.connections,
            final(self)@.inputs == if set {
                old(self)@.inputs.update(
                    input as int,
                    InputParam { value, ..old(self)@.inputs[input as int] },
                )
            } else {
                old(self)@.inputs
            },
    {
        proof {
            use_type_invariant(&*self);
        }
        if input >= self.store.inputs.len() {
            return false;
        }
        if self.store.inputs[input].kind != InputParamKind::ConnectionOrConstant {
            return false;
        }
        if value.data_type() != self.store.inputs[input].typ {
            return false;
        }
        let ghost before = self@;
        let mut store = self.take();
        store.inputs[input].value = value;
        proof {
            assert(before.input_ok(input as int));
            assert(store@.inputs =~= before.inputs.update(
                input as int,
                InputParam { value, ..before.inputs[input as int] },
            ));
            assert forall|i: int| 0 <= i < store@.inputs.len() implies #[trigger] store@.input_ok(
                i,
            ) by {
                assert(before.input_ok(i));
            }
            store@.lemma_same_shape(before);
        }
        *self = Graph { store };
        true
    }
}

impl NodeTemplate {
    /// The name under which a node finder lists the template.
    pub fn node_finder_label(&self, user_state: &mut GraphState) -> (label: &'static str)
        ensures
            label@ == self.spec_label(),
            *final(user_state) == *old(user_state),
    {
        match self {
            NodeTemplate::Root => "Root",
            NodeTemplate::CSGNode(template) => template.name(),
        }
    }

    /// The title of a node of the template.
    pub fn node_graph_label(&self, user_state: &mut GraphState) -> (label: String)
        ensures
            label@ == self.spec_label(),
            *final(user_state) == *old(user_state),
    {
        self.node_finder_label(user_state).to_owned()
    }

    /// What a node of the template carries.
    pub fn user_data(&self, user_state: &mut GraphState) -> (data: NodeData)
        ensures
            data == (NodeData { template: *self }),
            *final(user_state) == *old(user_state),
    {
        NodeData { template: *self }
    }

    /// Gives node `node_id` of `graph`, which has this template and no
    /// sockets yet, the sockets that the template declares: for a root the
    /// input `SDF`, for a scene node its declared inputs and the output
    /// `SDF`.
    pub fn build_node(&self, graph: &mut Graph, user_state: &mut GraphState, node_id: NodeId)
        requires
            node_id < old(graph)@.nodes.len(),
            old(graph)@.is_bare(node_id as int),
            old(graph)@.nodes[node_id as int].user_data.template == *self,
        ensures
            old(graph)@.built_into(node_id as int, final(graph)@),
            final(graph)@.is_built(node_id as int),
            *final(user_state) == *old(user_state),
    {
        let mut store = graph.take();
        store.build_node(self, node_id);
        *graph = Graph { store };
    }
}

impl AllNodeTemplates {
    /// Every template that an editor offers: the root, then each kind of
    /// scene node.
    pub fn all_kinds(&self) -> (kinds: Vec<NodeTemplate>)
        ensures
            kinds@ == seq![
                NodeTemplate::Root,
                NodeTemplate::CSGNode(CSGNodeTemplate::Sphere(SphereTemplate)),
                NodeTemplate::CSGNode(CSGNodeTemplate::Box(BoxTemplate)),
                NodeTemplate::CSGNode(CSGNodeTemplate::Union(UnionTemplate)),
                NodeTemplate::CSGNode(CSGNodeTemplate::Subtraction(SubtractionTemplate)),
            ],
    {
        let mut all_templates = vec![NodeTemplate::Root];
        let scene_templates = CSGNodeTemplate::all();
        let mut i: usize = 0;
        while i < scene_templates.len()
            invariant
                i <= scene_templates@.len(),
                all_templates@.len() == i + 1,
                all_templates@[0] == NodeTemplate::Root,
                forall|j: int|
                    0 <= j < i ==> all_templates@[j + 1] == NodeTemplate::CSGNode(
                        #[trigger] scene_templates@[j],
                    ),
            decreases scene_templates@.len() - i,
        {
            all_templates.push(NodeTemplate::CSGNode(scene_templates[i]));
            i += 1;
        }
        assert(all_templates@ =~= seq![
            NodeTemplate::Root,
            NodeTemplate::CSGNode(scene_templates@[0]),
            NodeTemplate::CSGNode(scene_templates@[1]),
            NodeTemplate::CSGNode(scene_templates@[2]),
            NodeTemplate::CSGNode(scene_templates@[3]),
        ]);
        all_templates
    }
}

impl Node {
    /// The index of the first socket in `sockets` that is called `name`.
    pub open spec fn find(sockets: Seq<(String, usize)>, name: Seq<char>) -> Option<usize>
        decreases sockets.len(),
    {
        if sockets.len() == 0 {
            None
        } else if sockets[0].0@ == name {
            Some(sockets[0].1)
        } else {
            Self::find(sockets.drop_first(), name)
        }
    }

    /// The first input of the node that is called `name`, if there is one.
    pub fn get_input(&self, name: &str) -> (input: Option<InputId>)
        ensures
            input == Self::find(self.inputs@, name@),
    {
        lookup(&self.inputs, name)
    }

    /// The first output of the node that is called `name`, if there is one.
    pub fn get_output(&self, name: &str) -> (output: Option<OutputId>)
        ensures
            output == Self::find(self.outputs@, name@),
    {
        lookup(&self.outputs, name)
    }
}

/// The index of the first socket in `sockets` that is called `name`.
fn lookup(sockets: &Vec<(String, usize)>, name: &str) -> (found: Option<usize>)
    ensures
        found == Node::find(sockets@, name@),
{
    let wanted = name.to_owned();
    let mut k: usize = 0;
    assert(sockets@.skip(0) =~= sockets@);
    while k < sockets.len()
        invariant
            k <= sockets@.len(),
            wanted@ == name@,
            Node::find(sockets@, name@) == Node::find(sockets@.skip(k as int), name@),
        decreases sockets@.len() - k,
    {
        let ghost rest = sockets@.skip(k as int);
        assert(rest[0] == sockets@[k as int]);
        if sockets[k].0 == wanted {
            return Some(sockets[k].1);
        }
        assert(rest.drop_first() =~= sockets@.skip(k + 1));
        k += 1;
    }
    assert(sockets@.skip(k as int).len() == 0);
    None
}

} // verus!
