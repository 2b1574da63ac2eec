use ray_marching_csg::evaluator::{evaluate, CSGNodeGraph};
use ray_marching_csg::graph::{Graph, GraphState, NodeData, NodeId, NodeTemplate};
use ray_marching_csg::node::{compile, CSGNode};
use ray_marching_csg::operations::{Subtraction, Union};
use ray_marching_csg::primitives::{Box as BoxShape, Sphere};
use ray_marching_csg::template::{
    BoxTemplate, CSGNodeTemplate, SphereTemplate, SubtractionTemplate, UnionTemplate,
};
use ray_marching_csg::value::{DataType, InputParamKind, ValueType};

fn bits3(v: [f32; 3]) -> [u32; 3] {
    [v[0].to_bits(), v[1].to_bits(), v[2].to_bits()]
}

fn sphere(center: [f32; 3], radius: f32) -> CSGNode {
    CSGNode::Sphere(Sphere { center: bits3(center), radius: radius.to_bits() })
}

fn add(graph: &mut Graph, template: NodeTemplate) -> NodeId {
    graph.add_node(template, &mut GraphState)
}

fn add_sphere(graph: &mut Graph, center: [f32; 3], radius: f32) -> NodeId {
    let id = add(graph, NodeTemplate::CSGNode(CSGNodeTemplate::Sphere(SphereTemplate)));
    let center_input = graph.nodes()[id].get_input("center").unwrap();
    let radius_input = graph.nodes()[id].get_input("radius").unwrap();
    assert!(graph.set_input_value(center_input, ValueType::Vec3(bits3(center))));
    assert!(graph.set_input_value(radius_input, ValueType::Scalar(radius.to_bits())));
    id
}

fn connect(graph: &mut Graph, from: NodeId, to: NodeId, input: &str) {
    let output = graph.nodes()[from].get_output("SDF").unwrap();
    let input = graph.nodes()[to].get_input(input).unwrap();
    assert!(graph.add_connection(output, input));
}

#[test]
fn graph_without_root_gives_no_scene() {
    let mut graph = Graph::new();
    add_sphere(&mut graph, [0.0; 3], 1.0);
    assert_eq!(evaluate(&graph).scene, None);
}

#[test]
fn root_without_connection_gives_no_scene() {
    let mut editor = CSGNodeGraph::new();
    editor.add_node(NodeTemplate::Root);
    assert_eq!(editor.evaluate_root(), None);
}

#[test]
fn sphere_connected_to_root_is_the_scene() {
    let mut graph = Graph::new();
    let root = add(&mut graph, NodeTemplate::Root);
    let s = add_sphere(&mut graph, [1.0, 2.0, 3.0], 0.5);
    connect(&mut graph, s, root, "SDF");
    assert_eq!(evaluate(&graph).scene, Some(sphere([1.0, 2.0, 3.0], 0.5)));
}

#[test]
fn subtraction_of_two_spheres_is_evaluated_left_then_right() {
    let mut graph = Graph::new();
    let root = add(&mut graph, NodeTemplate::Root);
    let a = add_sphere(&mut graph, [0.0, 0.0, 0.0], 1.0);
    let b = add_sphere(&mut graph, [1.0, 0.0, 0.0], 1.0);
    let sub = add(&mut graph, NodeTemplate::CSGNode(CSGNodeTemplate::Subtraction(SubtractionTemplate)));
    connect(&mut graph, a, sub, "A");
    connect(&mut graph, b, sub, "B");
    connect(&mut graph, sub, root, "SDF");
    let evaluation = evaluate(&graph);
    assert_eq!(
        evaluation.scene,
        Some(CSGNode::Subtraction(Subtraction(
            Box::new(sphere([0.0, 0.0, 0.0], 1.0)),
            Box::new(sphere([1.0, 0.0, 0.0], 1.0)),
        )))
    );
    assert_eq!(evaluation.evaluated, vec![a, b, sub]);
}

#[test]
fn operator_with_a_missing_operand_gives_no_scene() {
    let mut graph = Graph::new();
    let root = add(&mut graph, NodeTemplate::Root);
    let a = add_sphere(&mut graph, [0.0; 3], 1.0);
    let union = add(&mut graph, NodeTemplate::CSGNode(CSGNodeTemplate::Union(UnionTemplate)));
    connect(&mut graph, a, union, "A");
    connect(&mut graph, union, root, "SDF");
    assert_eq!(evaluate(&graph).scene, None);
}

#[test]
fn missing_operand_deep_in_the_graph_gives_no_scene() {
    let mut graph = Graph::new();
    let root = add(&mut graph, NodeTemplate::Root);
    let mut below = add(&mut graph, NodeTemplate::CSGNode(CSGNodeTemplate::Union(UnionTemplate)));
    let leaf = add_sphere(&mut graph, [0.0; 3], 1.0);
    connect(&mut graph, leaf, below, "A");
    for _ in 0..5 {
        let above = add(&mut graph, NodeTemplate::CSGNode(CSGNodeTemplate::Union(UnionTemplate)));
        let other = add_sphere(&mut graph, [0.0; 3], 1.0);
        connect(&mut graph, below, above, "A");
        connect(&mut graph, other, above, "B");
        below = above;
    }
    connect(&mut graph, below, root, "SDF");
    assert_eq!(evaluate(&graph).scene, None);
}

#[test]
fn shared_node_is_evaluated_once() {
    let mut graph = Graph::new();
    let root = add(&mut graph, NodeTemplate::Root);
    let shared = add_sphere(&mut graph, [0.0; 3], 2.0);
    let union = add(&mut graph, NodeTemplate::CSGNode(CSGNodeTemplate::Union(UnionTemplate)));
    connect(&mut graph, shared, union, "A");
    connect(&mut graph, shared, union, "B");
    connect(&mut graph, union, root, "SDF");
    let evaluation = evaluate(&graph);
    assert_eq!(
        evaluation.scene,
        Some(CSGNode::Union(Union(
            Box::new(sphere([0.0; 3], 2.0)),
            Box::new(sphere([0.0; 3], 2.0)),
        )))
    );
    assert_eq!(evaluation.evaluated.iter().filter(|n| **n == shared).count(), 1);
    assert_eq!(evaluation.evaluated, vec![shared, union]);
}

#[test]
fn cycle_gives_no_scene() {
    let mut graph = Graph::new();
    let root = add(&mut graph, NodeTemplate::Root);
    let first = add(&mut graph, NodeTemplate::CSGNode(CSGNodeTemplate::Union(UnionTemplate)));
    let second = add(&mut graph, NodeTemplate::CSGNode(CSGNodeTemplate::Union(UnionTemplate)));
    let leaf = add_sphere(&mut graph, [0.0; 3], 1.0);
    connect(&mut graph, leaf, first, "A");
    connect(&mut graph, second, first, "B");
    connect(&mut graph, leaf, second, "A");
    connect(&mut graph, first, second, "B");
    connect(&mut graph, first, root, "SDF");
    assert_eq!(evaluate(&graph).scene, None);
}

#[test]
fn new_graph_is_empty() {
    let graph = Graph::new();
    assert!(graph.nodes().is_empty());
    assert!(graph.inputs().is_empty());
    assert!(graph.outputs().is_empty());
    assert_eq!(graph.connection(0), None);
}

#[test]
fn root_gets_one_scene_input_and_no_output() {
    let mut graph = Graph::new();
    let root = add(&mut graph, NodeTemplate::Root);
    assert_eq!(root, 0);
    let node = &graph.nodes()[root];
    assert_eq!(node.id, root);
    assert_eq!(node.label, "Root");
    assert_eq!(node.user_data.template, NodeTemplate::Root);
    assert_eq!(node.inputs, vec![("SDF".to_string(), 0)]);
    assert!(node.outputs.is_empty());
    let input = &graph.inputs()[0];
    assert_eq!(input.id, 0);
    assert_eq!(input.node, root);
    assert_eq!(input.typ, DataType::CSGNode);
    assert_eq!(input.kind, InputParamKind::ConnectionOnly);
    assert_eq!(input.value, ValueType::CSGNode(None));
    assert_eq!(graph.connection(0), None);
}

#[test]
fn sphere_gets_its_declared_sockets() {
    let mut graph = Graph::new();
    add(&mut graph, NodeTemplate::Root);
    let id = add(&mut graph, NodeTemplate::CSGNode(CSGNodeTemplate::Sphere(SphereTemplate)));
    assert_eq!(id, 1);
    let node = &graph.nodes()[id];
    assert_eq!(node.label, "Sphere");
    assert_eq!(node.inputs, vec![("center".to_string(), 1), ("radius".to_string(), 2)]);
    assert_eq!(node.outputs, vec![("SDF".to_string(), 0)]);
    assert_eq!(graph.inputs()[1].typ, DataType::Vec3);
    assert_eq!(graph.inputs()[1].value, ValueType::Vec3([0, 0, 0]));
    assert_eq!(graph.inputs()[1].kind, InputParamKind::ConnectionOrConstant);
    assert_eq!(graph.inputs()[1].node, id);
    assert_eq!(graph.inputs()[2].typ, DataType::Scalar);
    assert_eq!(graph.inputs()[2].value, ValueType::Scalar(1.0f32.to_bits()));
    assert_eq!(graph.outputs()[0].id, 0);
    assert_eq!(graph.outputs()[0].node, id);
    assert_eq!(graph.outputs()[0].typ, DataType::CSGNode);
    assert_eq!(graph.connection(1), None);
    assert_eq!(graph.connection(2), None);
}

#[test]
fn operator_gets_two_scene_inputs_and_one_output() {
    let mut graph = Graph::new();
    let id = add(&mut graph, NodeTemplate::CSGNode(CSGNodeTemplate::Subtraction(SubtractionTemplate)));
    let node = &graph.nodes()[id];
    assert_eq!(node.label, "Subtraction");
    assert_eq!(node.inputs, vec![("A".to_string(), 0), ("B".to_string(), 1)]);
    assert_eq!(node.outputs, vec![("SDF".to_string(), 0)]);
    for input in graph.inputs() {
        assert_eq!(input.typ, DataType::CSGNode);
        assert_eq!(input.kind, InputParamKind::ConnectionOnly);
        assert_eq!(input.value, ValueType::CSGNode(None));
    }
}

#[test]
fn build_node_gives_a_bare_node_its_sockets() {
    let mut graph = Graph::new();
    let mut state = GraphState;
    let template = NodeTemplate::CSGNode(CSGNodeTemplate::Box(BoxTemplate));
    let id = graph.insert_node("a box".to_string(), template.user_data(&mut state));
    assert!(graph.nodes()[id].inputs.is_empty());
    assert!(graph.nodes()[id].outputs.is_empty());
    assert!(graph.inputs().is_empty());
    template.build_node(&mut graph, &mut state, id);
    let node = &graph.nodes()[id];
    assert_eq!(node.label, "a box");
    assert_eq!(node.inputs, vec![("center".to_string(), 0), ("radius".to_string(), 1)]);
    assert_eq!(node.outputs, vec![("SDF".to_string(), 0)]);
    let one = 1.0f32.to_bits();
    assert_eq!(graph.inputs()[1].value, ValueType::Vec3([one, one, one]));
}

#[test]
fn sockets_are_found_by_name() {
    let mut graph = Graph::new();
    let id = add(&mut graph, NodeTemplate::CSGNode(CSGNodeTemplate::Union(UnionTemplate)));
    let node = &graph.nodes()[id];
    assert_eq!(node.get_input("A"), Some(0));
    assert_eq!(node.get_input("B"), Some(1));
    assert_eq!(node.get_input("C"), None);
    assert_eq!(node.get_input("SDF"), None);
    assert_eq!(node.get_output("SDF"), Some(0));
    assert_eq!(node.get_output("A"), None);
}

#[test]
fn connection_needs_both_sockets_and_one_type() {
    let mut graph = Graph::new();
    let root = add(&mut graph, NodeTemplate::Root);
    let s = add(&mut graph, NodeTemplate::CSGNode(CSGNodeTemplate::Sphere(SphereTemplate)));
    let output = graph.nodes()[s].get_output("SDF").unwrap();
    let sdf = graph.nodes()[root].get_input("SDF").unwrap();
    let center = graph.nodes()[s].get_input("center").unwrap();
    let radius = graph.nodes()[s].get_input("radius").unwrap();

    assert!(!graph.add_connection(output, center));
    assert!(!graph.add_connection(output, radius));
    assert!(!graph.add_connection(output, 99));
    assert!(!graph.add_connection(99, sdf));
    assert_eq!(graph.connection(sdf), None);
    assert_eq!(graph.connection(center), None);

    assert!(graph.add_connection(output, sdf));
    assert_eq!(graph.connection(sdf), Some(output));
}

#[test]
fn connection_replaces_the_one_before_and_can_be_removed() {
    let mut graph = Graph::new();
    let root = add(&mut graph, NodeTemplate::Root);
    let first = add_sphere(&mut graph, [0.0; 3], 1.0);
    let second = add_sphere(&mut graph, [0.0; 3], 2.0);
    connect(&mut graph, first, root, "SDF");
    assert_eq!(evaluate(&graph).scene, Some(sphere([0.0; 3], 1.0)));
    connect(&mut graph, second, root, "SDF");
    assert_eq!(evaluate(&graph).scene, Some(sphere([0.0; 3], 2.0)));

    let sdf = graph.nodes()[root].get_input("SDF").unwrap();
    let output = graph.nodes()[second].get_output("SDF").unwrap();
    assert_eq!(graph.remove_connection(sdf), Some(output));
    assert_eq!(graph.connection(sdf), None);
    assert_eq!(graph.remove_connection(sdf), None);
    assert_eq!(graph.remove_connection(99), None);
    assert_eq!(evaluate(&graph).scene, None);
}

#[test]
fn constant_needs_the_type_of_its_input() {
    let mut graph = Graph::new();
    let s = add(&mut graph, NodeTemplate::CSGNode(CSGNodeTemplate::Sphere(SphereTemplate)));
    let center = graph.nodes()[s].get_input("center").unwrap();
    let radius = graph.nodes()[s].get_input("radius").unwrap();
    assert!(!graph.set_input_value(center, ValueType::Scalar(1)));
    assert!(!graph.set_input_value(radius, ValueType::Vec3([1, 2, 3])));
    assert!(!graph.set_input_value(radius, ValueType::CSGNode(None)));
    assert!(!graph.set_input_value(99, ValueType::Scalar(1)));
    assert_eq!(graph.inputs()[center].value, ValueType::Vec3([0, 0, 0]));
    assert!(graph.set_input_value(center, ValueType::Vec3([1, 2, 3])));
    assert!(graph.set_input_value(radius, ValueType::Scalar(4)));
    assert_eq!(graph.inputs()[center].value, ValueType::Vec3([1, 2, 3]));
    assert_eq!(graph.inputs()[radius].value, ValueType::Scalar(4));
}

#[test]
fn scene_input_takes_no_constant() {
    let mut graph = Graph::new();
    let root = add(&mut graph, NodeTemplate::Root);
    let sdf = graph.nodes()[root].get_input("SDF").unwrap();
    let scene = ValueType::CSGNode(Some(Box::new(sphere([0.0; 3], 1.0))));
    assert!(!graph.set_input_value(sdf, scene));
    assert!(!graph.set_input_value(sdf, ValueType::CSGNode(None)));
    assert_eq!(graph.inputs()[sdf].value, ValueType::CSGNode(None));
    assert_eq!(evaluate(&graph).scene, None);
}

#[test]
fn sphere_with_default_constants_is_the_unit_sphere() {
    let mut graph = Graph::new();
    let root = add(&mut graph, NodeTemplate::Root);
    let s = add(&mut graph, NodeTemplate::CSGNode(CSGNodeTemplate::Sphere(SphereTemplate)));
    connect(&mut graph, s, root, "SDF");
    assert_eq!(evaluate(&graph).scene, Some(sphere([0.0; 3], 1.0)));
}

#[test]
fn box_connected_to_root_is_the_scene() {
    let mut graph = Graph::new();
    let root = add(&mut graph, NodeTemplate::Root);
    let b = add(&mut graph, NodeTemplate::CSGNode(CSGNodeTemplate::Box(BoxTemplate)));
    let radius = graph.nodes()[b].get_input("radius").unwrap();
    assert!(graph.set_input_value(radius, ValueType::Vec3(bits3([1.0, 2.0, 3.0]))));
    connect(&mut graph, b, root, "SDF");
    assert_eq!(
        evaluate(&graph).scene,
        Some(CSGNode::Box(BoxShape { center: bits3([0.0; 3]), radius: bits3([1.0, 2.0, 3.0]) }))
    );
}

#[test]
fn first_root_is_the_one_evaluated() {
    let mut graph = Graph::new();
    let s = add_sphere(&mut graph, [0.0; 3], 1.0);
    let first = add(&mut graph, NodeTemplate::Root);
    let second = add(&mut graph, NodeTemplate::Root);
    connect(&mut graph, s, second, "SDF");
    assert_eq!(evaluate(&graph).scene, None);
    assert_eq!(evaluate(&graph).evaluated, Vec::<NodeId>::new());
    connect(&mut graph, s, first, "SDF");
    assert_eq!(evaluate(&graph).scene, Some(sphere([0.0; 3], 1.0)));
}

#[test]
fn bare_root_gives_no_scene() {
    let mut graph = Graph::new();
    graph.insert_node("Root".to_string(), NodeData { template: NodeTemplate::Root });
    add_sphere(&mut graph, [0.0; 3], 1.0);
    let evaluation = evaluate(&graph);
    assert_eq!(evaluation.scene, None);
    assert!(evaluation.evaluated.is_empty());
}

#[test]
fn nodes_not_upstream_of_the_root_are_not_evaluated() {
    let mut graph = Graph::new();
    let root = add(&mut graph, NodeTemplate::Root);
    let used = add_sphere(&mut graph, [0.0; 3], 1.0);
    let unused = add_sphere(&mut graph, [0.0; 3], 2.0);
    let orphan = add(&mut graph, NodeTemplate::CSGNode(CSGNodeTemplate::Union(UnionTemplate)));
    connect(&mut graph, unused, orphan, "A");
    connect(&mut graph, used, root, "SDF");
    assert_eq!(evaluate(&graph).evaluated, vec![used]);
}

#[test]
fn diamond_evaluates_every_node_once() {
    let mut graph = Graph::new();
    let root = add(&mut graph, NodeTemplate::Root);
    let shared = add_sphere(&mut graph, [0.0; 3], 1.0);
    let other = add_sphere(&mut graph, [1.0; 3], 1.0);
    let left = add(&mut graph, NodeTemplate::CSGNode(CSGNodeTemplate::Union(UnionTemplate)));
    let right = add(&mut graph, NodeTemplate::CSGNode(CSGNodeTemplate::Subtraction(SubtractionTemplate)));
    let top = add(&mut graph, NodeTemplate::CSGNode(CSGNodeTemplate::Union(UnionTemplate)));
    connect(&mut graph, shared, left, "A");
    connect(&mut graph, other, left, "B");
    connect(&mut graph, other, right, "A");
    connect(&mut graph, shared, right, "B");
    connect(&mut graph, left, top, "A");
    connect(&mut graph, right, top, "B");
    connect(&mut graph, top, root, "SDF");
    let evaluation = evaluate(&graph);
    let a = sphere([0.0; 3], 1.0);
    let b = sphere([1.0; 3], 1.0);
    assert_eq!(
        evaluation.scene,
        Some(CSGNode::Union(Union(
            Box::new(CSGNode::Union(Union(Box::new(a.clone()), Box::new(b.clone())))),
            Box::new(CSGNode::Subtraction(Subtraction(Box::new(b), Box::new(a)))),
        )))
    );
    assert_eq!(evaluation.evaluated, vec![shared, other, left, right, top]);
    for node in [shared, other, left, right, top] {
        assert_eq!(evaluation.evaluated.iter().filter(|n| **n == node).count(), 1);
    }
}

#[test]
fn shared_node_that_gives_nothing_is_evaluated_once() {
    let mut graph = Graph::new();
    let root = add(&mut graph, NodeTemplate::Root);
    let empty = add(&mut graph, NodeTemplate::CSGNode(CSGNodeTemplate::Union(UnionTemplate)));
    let top = add(&mut graph, NodeTemplate::CSGNode(CSGNodeTemplate::Union(UnionTemplate)));
    connect(&mut graph, empty, top, "A");
    connect(&mut graph, empty, top, "B");
    connect(&mut graph, top, root, "SDF");
    let evaluation = evaluate(&graph);
    assert_eq!(evaluation.scene, None);
    assert_eq!(evaluation.evaluated, vec![empty, top]);
}

#[test]
fn node_connected_to_itself_gives_no_scene() {
    let mut graph = Graph::new();
    let root = add(&mut graph, NodeTemplate::Root);
    let leaf = add_sphere(&mut graph, [0.0; 3], 1.0);
    let looped = add(&mut graph, NodeTemplate::CSGNode(CSGNodeTemplate::Union(UnionTemplate)));
    connect(&mut graph, leaf, looped, "A");
    connect(&mut graph, looped, looped, "B");
    connect(&mut graph, looped, root, "SDF");
    assert_eq!(evaluate(&graph).scene, None);
}

#[test]
fn cycle_away_from_the_root_does_not_matter() {
    let mut graph = Graph::new();
    let root = add(&mut graph, NodeTemplate::Root);
    let leaf = add_sphere(&mut graph, [0.0; 3], 1.0);
    let looped = add(&mut graph, NodeTemplate::CSGNode(CSGNodeTemplate::Union(UnionTemplate)));
    connect(&mut graph, looped, looped, "A");
    connect(&mut graph, leaf, root, "SDF");
    let evaluation = evaluate(&graph);
    assert_eq!(evaluation.scene, Some(sphere([0.0; 3], 1.0)));
    assert_eq!(evaluation.evaluated, vec![leaf]);
}

#[test]
fn editor_graph_evaluates_its_root() {
    let mut editor = CSGNodeGraph::default();
    let root = editor.add_node(NodeTemplate::Root);
    let a = editor.add_node(NodeTemplate::CSGNode(CSGNodeTemplate::Sphere(SphereTemplate)));
    let b = editor.add_node(NodeTemplate::CSGNode(CSGNodeTemplate::Box(BoxTemplate)));
    let union = editor.add_node(NodeTemplate::CSGNode(CSGNodeTemplate::Union(UnionTemplate)));
    connect(&mut editor.graph, a, union, "A");
    connect(&mut editor.graph, b, union, "B");
    connect(&mut editor.graph, union, root, "SDF");
    let one = 1.0f32.to_bits();
    assert_eq!(
        editor.evaluate_root(),
        Some(CSGNode::Union(Union(
            Box::new(CSGNode::Sphere(Sphere { center: [0, 0, 0], radius: one })),
            Box::new(CSGNode::Box(BoxShape { center: [0, 0, 0], radius: [one, one, one] })),
        )))
    );
}

#[test]
fn evaluated_scene_compiles_to_the_expected_buffers() {
    let mut graph = Graph::new();
    let root = add(&mut graph, NodeTemplate::Root);
    let a = add_sphere(&mut graph, [0.0, 0.0, 0.0], 1.0);
    let b = add_sphere(&mut graph, [1.0, 0.0, 0.0], 1.0);
    let sub = add(&mut graph, NodeTemplate::CSGNode(CSGNodeTemplate::Subtraction(SubtractionTemplate)));
    connect(&mut graph, a, sub, "A");
    connect(&mut graph, b, sub, "B");
    connect(&mut graph, sub, root, "SDF");
    let scene = evaluate(&graph).scene;
    let (count, opcodes, params) = compile(&scene).unwrap();
    let one = 1.0f32.to_bits();
    assert_eq!(count, 3);
    assert_eq!(opcodes, vec![0, 0, 101]);
    assert_eq!(params, vec![0, 0, 0, one, one, 0, 0, one]);
}
