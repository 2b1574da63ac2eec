use ray_marching_csg::builder::CSGCommandBufferBuilder;
use ray_marching_csg::command::{CSGCommandType, Command};
use ray_marching_csg::node::{compile, BuildCommands, CSGNode};
use ray_marching_csg::operations::{Subtraction, Union};
use ray_marching_csg::primitives::{Box as BoxShape, Sphere};

fn bits3(v: [f32; 3]) -> [u32; 3] {
    [v[0].to_bits(), v[1].to_bits(), v[2].to_bits()]
}

fn sphere(center: [f32; 3], radius: f32) -> CSGNode {
    CSGNode::Sphere(Sphere { center: bits3(center), radius: radius.to_bits() })
}

fn cuboid(center: [f32; 3], radius: [f32; 3]) -> CSGNode {
    CSGNode::Box(BoxShape { center: bits3(center), radius: bits3(radius) })
}

fn union(left: CSGNode, right: CSGNode) -> CSGNode {
    CSGNode::Union(Union(Box::new(left), Box::new(right)))
}

fn subtraction(left: CSGNode, right: CSGNode) -> CSGNode {
    CSGNode::Subtraction(Subtraction(Box::new(left), Box::new(right)))
}

fn encode(node: &CSGNode) -> CSGCommandBufferBuilder {
    let mut builder = CSGCommandBufferBuilder::new();
    node.build_commands(&mut builder);
    builder
}

/// First and last instruction index of every subtree, and the index of each
/// operator, computed from the tree alone.
fn spans(node: &CSGNode, first: usize, out: &mut Vec<(usize, usize, Option<(usize, usize)>)>) -> usize {
    match node {
        CSGNode::Sphere(_) | CSGNode::Box(_) => {
            out.push((first, first, None));
            first
        }
        CSGNode::Union(Union(l, r)) | CSGNode::Subtraction(Subtraction(l, r)) => {
            let left_last = spans(l, first, out);
            let right_last = spans(r, left_last + 1, out);
            out.push((first, right_last + 1, Some((left_last, right_last))));
            right_last + 1
        }
    }
}

#[test]
fn new_builder_is_empty() {
    let builder = CSGCommandBufferBuilder::new();
    assert_eq!(builder.cmd_count(), 0);
    assert_eq!(builder.param_count(), 0);
    assert!(builder.commands().is_empty());
    assert!(builder.params().is_empty());
}

#[test]
fn opcodes_have_their_fixed_codes() {
    assert_eq!(CSGCommandType::Sphere.code(), 0);
    assert_eq!(CSGCommandType::Box.code(), 1);
    assert_eq!(CSGCommandType::Union.code(), 100);
    assert_eq!(CSGCommandType::Subtraction.code(), 101);
}

#[test]
fn codes_decode_to_their_opcodes_and_nothing_else_decodes() {
    for kind in [
        CSGCommandType::Sphere,
        CSGCommandType::Box,
        CSGCommandType::Union,
        CSGCommandType::Subtraction,
    ] {
        assert_eq!(CSGCommandType::from_code(kind.code()), Some(kind));
    }
    assert_eq!(CSGCommandType::from_code(2), None);
    assert_eq!(CSGCommandType::from_code(99), None);
    assert_eq!(CSGCommandType::from_code(102), None);
    assert_eq!(CSGCommandType::from_code(200), None);
    assert_eq!(CSGCommandType::from_code(u32::MAX), None);
}

#[test]
fn opcodes_know_their_parameter_counts_and_arity() {
    assert_eq!(CSGCommandType::Sphere.param_words(), 4);
    assert_eq!(CSGCommandType::Box.param_words(), 6);
    assert_eq!(CSGCommandType::Union.param_words(), 0);
    assert_eq!(CSGCommandType::Subtraction.param_words(), 0);
    assert!(CSGCommandType::Sphere.is_primitive());
    assert!(CSGCommandType::Box.is_primitive());
    assert!(!CSGCommandType::Union.is_primitive());
    assert!(CSGCommandType::Union.is_binary_operator());
    assert!(CSGCommandType::Subtraction.is_binary_operator());
    assert!(!CSGCommandType::Box.is_binary_operator());
}

#[test]
fn push_command_records_the_current_parameter_length() {
    let mut builder = CSGCommandBufferBuilder::new();
    builder.push_command(CSGCommandType::Sphere);
    builder.push_param_vec3([1, 2, 3]).push_param_float(4);
    builder.push_command(CSGCommandType::Box);
    builder.push_param_vec3([5, 6, 7]).push_param_vec3([8, 9, 10]);
    builder.push_command(CSGCommandType::Union);
    assert_eq!(
        builder.commands(),
        &vec![
            Command { opcode: CSGCommandType::Sphere, parameter_offset: 0 },
            Command { opcode: CSGCommandType::Box, parameter_offset: 4 },
            Command { opcode: CSGCommandType::Union, parameter_offset: 10 },
        ]
    );
    assert_eq!(builder.params(), &vec![1, 2, 3, 4, 5, 6, 7, 8, 9, 10]);
    assert_eq!(builder.cmd_count(), 3);
    assert_eq!(builder.param_count(), 10);
}

#[test]
fn pushes_chain() {
    let mut builder = CSGCommandBufferBuilder::new();
    builder
        .push_command(CSGCommandType::Sphere)
        .push_param_vec3([1, 2, 3])
        .push_param_float(4)
        .push_command(CSGCommandType::Sphere)
        .push_param_vec3([5, 6, 7])
        .push_param_float(8);
    assert_eq!(builder.cmd_count(), 2);
    assert_eq!(builder.params(), &vec![1, 2, 3, 4, 5, 6, 7, 8]);
    assert_eq!(builder.commands()[1].parameter_offset, 4);
}

#[test]
fn sphere_pushes_center_then_radius() {
    let builder = encode(&sphere([1.0, 2.0, 3.0], 0.5));
    assert_eq!(
        builder.commands(),
        &vec![Command { opcode: CSGCommandType::Sphere, parameter_offset: 0 }]
    );
    assert_eq!(
        builder.params(),
        &vec![1.0f32.to_bits(), 2.0f32.to_bits(), 3.0f32.to_bits(), 0.5f32.to_bits()]
    );
}

#[test]
fn box_pushes_center_then_half_extents() {
    let builder = encode(&cuboid([1.0, 2.0, 3.0], [4.0, 5.0, 6.0]));
    assert_eq!(
        builder.commands(),
        &vec![Command { opcode: CSGCommandType::Box, parameter_offset: 0 }]
    );
    assert_eq!(
        builder.params(),
        &vec![
            1.0f32.to_bits(),
            2.0f32.to_bits(),
            3.0f32.to_bits(),
            4.0f32.to_bits(),
            5.0f32.to_bits(),
            6.0f32.to_bits()
        ]
    );
}

#[test]
fn negative_and_zero_radii_are_encoded_as_they_are() {
    let builder = encode(&sphere([0.0; 3], -1.0));
    assert_eq!(builder.params()[3], (-1.0f32).to_bits());
    let builder = encode(&sphere([0.0; 3], 0.0));
    assert_eq!(builder.params()[3], 0);
}

#[test]
fn subtraction_of_two_spheres_is_emitted_in_post_order() {
    let root = subtraction(sphere([0.0, 0.0, 0.0], 1.0), sphere([1.0, 0.0, 0.0], 1.0));
    let builder = encode(&root);

    let one = 1.0f32.to_bits();
    assert_eq!(builder.cmd_count(), 3);
    assert_eq!(
        builder.commands(),
        &vec![
            Command { opcode: CSGCommandType::Sphere, parameter_offset: 0 },
            Command { opcode: CSGCommandType::Sphere, parameter_offset: 4 },
            Command { opcode: CSGCommandType::Subtraction, parameter_offset: 8 },
        ]
    );
    assert_eq!(builder.params(), &vec![0, 0, 0, one, one, 0, 0, one]);

    let (count, opcodes, params) = builder.build();
    assert_eq!(count, 3);
    assert_eq!(opcodes, vec![0, 0, 101]);
    assert_eq!(params, vec![0, 0, 0, one, one, 0, 0, one]);
}

#[test]
fn build_commands_appends_to_what_the_builder_holds() {
    let mut builder = CSGCommandBufferBuilder::new();
    sphere([0.0; 3], 1.0).build_commands(&mut builder);
    union(cuboid([0.0; 3], [1.0; 3]), sphere([0.0; 3], 2.0)).build_commands(&mut builder);
    let kinds: Vec<CSGCommandType> = builder.commands().iter().map(|c| c.opcode).collect();
    assert_eq!(
        kinds,
        vec![
            CSGCommandType::Sphere,
            CSGCommandType::Box,
            CSGCommandType::Sphere,
            CSGCommandType::Union
        ]
    );
    let offsets: Vec<u32> = builder.commands().iter().map(|c| c.parameter_offset).collect();
    assert_eq!(offsets, vec![0, 4, 10, 14]);
    assert_eq!(builder.param_count(), 14);
}

#[test]
fn every_operator_comes_after_both_of_its_operands() {
    let tree = union(
        subtraction(sphere([0.0; 3], 1.0), cuboid([0.0; 3], [1.0; 3])),
        union(sphere([1.0; 3], 1.0), subtraction(sphere([2.0; 3], 1.0), sphere([3.0; 3], 1.0))),
    );
    let builder = encode(&tree);
    let mut all = Vec::new();
    let last = spans(&tree, 0, &mut all);
    assert_eq!(last + 1, builder.cmd_count() as usize);
    let mut operators = 0;
    for (first, own, operands) in all {
        if let Some((left_last, right_last)) = operands {
            operators += 1;
            assert!(first <= left_last);
            assert!(left_last < right_last);
            assert!(right_last < own);
            assert!(builder.commands()[own].opcode.is_binary_operator());
            assert_eq!(right_last + 1, own);
        } else {
            assert!(builder.commands()[own].opcode.is_primitive());
        }
    }
    assert_eq!(operators, 4);
    let kinds: Vec<u32> = builder.commands().iter().map(|c| c.opcode.code()).collect();
    assert_eq!(kinds, vec![0, 1, 101, 0, 0, 0, 101, 100, 100]);
}

#[test]
fn parameter_offsets_count_the_words_of_the_instructions_before() {
    let tree = union(
        subtraction(sphere([0.0; 3], 1.0), cuboid([0.5; 3], [1.0; 3])),
        union(cuboid([1.0; 3], [2.0; 3]), sphere([3.0; 3], 4.0)),
    );
    let builder = encode(&tree);
    let mut expected: u32 = 0;
    for command in builder.commands() {
        assert_eq!(command.parameter_offset, expected);
        expected += command.opcode.param_words() as u32;
    }
    assert_eq!(expected, builder.param_count());
    let offsets: Vec<u32> = builder.commands().iter().map(|c| c.parameter_offset).collect();
    assert_eq!(offsets, vec![0, 4, 10, 10, 16, 20, 20]);
}

#[test]
fn parameters_read_back_at_their_offsets() {
    let tree = subtraction(cuboid([1.0, 2.0, 3.0], [4.0, 5.0, 6.0]), sphere([7.0, 8.0, 9.0], 10.0));
    let builder = encode(&tree);
    let read = |index: usize| -> Vec<f32> {
        let command = builder.commands()[index];
        let start = command.parameter_offset as usize;
        builder.params()[start..start + command.opcode.param_words()]
            .iter()
            .map(|w| f32::from_bits(*w))
            .collect()
    };
    assert_eq!(read(0), vec![1.0, 2.0, 3.0, 4.0, 5.0, 6.0]);
    assert_eq!(read(1), vec![7.0, 8.0, 9.0, 10.0]);
    assert_eq!(read(2), Vec::<f32>::new());
}

#[test]
fn encoded_size_counts_instructions_and_words() {
    assert_eq!(sphere([0.0; 3], 1.0).encoded_size(), Some((1, 4)));
    assert_eq!(cuboid([0.0; 3], [1.0; 3]).encoded_size(), Some((1, 6)));
    let tree = union(sphere([0.0; 3], 1.0), subtraction(cuboid([0.0; 3], [1.0; 3]), sphere([0.0; 3], 1.0)));
    assert_eq!(tree.encoded_size(), Some((5, 14)));
}

#[test]
fn empty_builder_builds_padded_buffers() {
    let (count, opcodes, params) = CSGCommandBufferBuilder::new().build();
    assert_eq!(count, 0);
    assert_eq!(opcodes, vec![0]);
    assert_eq!(params, vec![0]);
}

#[test]
fn operators_alone_leave_the_parameters_padded() {
    let mut builder = CSGCommandBufferBuilder::new();
    builder.push_command(CSGCommandType::Union);
    let (count, opcodes, params) = builder.build();
    assert_eq!(count, 1);
    assert_eq!(opcodes, vec![100]);
    assert_eq!(params, vec![0]);
}

#[test]
fn empty_scene_has_no_instructions() {
    let (count, opcodes, params) = compile(&None).unwrap();
    assert_eq!(count, 0);
    assert_eq!(opcodes, vec![0]);
    assert_eq!(params, vec![0]);
}

#[test]
fn compile_encodes_the_scene() {
    let scene = Some(union(sphere([0.0; 3], 1.0), cuboid([1.0; 3], [2.0; 3])));
    let (count, opcodes, params) = compile(&scene).unwrap();
    let (one, two) = (1.0f32.to_bits(), 2.0f32.to_bits());
    assert_eq!(count, 3);
    assert_eq!(opcodes, vec![0, 1, 100]);
    assert_eq!(params, vec![0, 0, 0, one, one, one, one, two, two, two]);
}

#[test]
fn cloned_tree_equals_its_source() {
    let tree = union(sphere([0.0; 3], 1.0), subtraction(cuboid([0.0; 3], [1.0; 3]), sphere([1.0; 3], 1.0)));
    assert_eq!(tree.clone(), tree);
}

#[test]
fn shapes_and_operators_convert_into_nodes() {
    let ball = Sphere { center: [0, 0, 0], radius: 1 };
    assert_eq!(CSGNode::from(ball), CSGNode::Sphere(ball));
    let shape = BoxShape { center: [0, 0, 0], radius: [1, 1, 1] };
    assert_eq!(CSGNode::from(shape), CSGNode::Box(shape));
    let node: CSGNode = Union(Box::new(CSGNode::Sphere(ball)), Box::new(CSGNode::Box(shape))).into();
    assert_eq!(node, union(CSGNode::Sphere(ball), CSGNode::Box(shape)));
    let sub = Subtraction::from((Box::new(CSGNode::Sphere(ball)), Box::new(CSGNode::Box(shape))));
    assert_eq!(CSGNode::from(sub), subtraction(CSGNode::Sphere(ball), CSGNode::Box(shape)));
}

#[test]
fn different_trees_have_different_encodings() {
    let a = sphere([0.0; 3], 1.0);
    let b = sphere([1.0, 0.0, 0.0], 1.0);
    let c = cuboid([0.0; 3], [1.0; 3]);
    let trees = vec![
        a.clone(),
        b.clone(),
        c.clone(),
        union(a.clone(), b.clone()),
        union(b.clone(), a.clone()),
        subtraction(a.clone(), b.clone()),
        subtraction(b.clone(), a.clone()),
        union(union(a.clone(), b.clone()), c.clone()),
        union(a.clone(), union(b.clone(), c.clone())),
        subtraction(union(a.clone(), b.clone()), c.clone()),
    ];
    for (i, first) in trees.iter().enumerate() {
        for (j, second) in trees.iter().enumerate() {
            let one = compile(&Some(first.clone())).unwrap();
            let other = compile(&Some(second.clone())).unwrap();
            assert_eq!(one == other, i == j);
        }
    }
}
