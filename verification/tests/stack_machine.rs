use ray_marching_csg::command::CSGCommandType;
use ray_marching_csg::node::{compile, CSGNode};
use ray_marching_csg::operations::{Subtraction, Union};
use ray_marching_csg::primitives::{Box as BoxShape, Sphere};

fn bits3(v: [f32; 3]) -> [u32; 3] {
    [v[0].to_bits(), v[1].to_bits(), v[2].to_bits()]
}

fn vec3(words: &[u32]) -> [f32; 3] {
    [f32::from_bits(words[0]), f32::from_bits(words[1]), f32::from_bits(words[2])]
}

fn sphere(center: [f32; 3], radius: f32) -> CSGNode {
    CSGNode::Sphere(Sphere { center: bits3(center), radius: radius.to_bits() })
}

fn cuboid(center: [f32; 3], radius: [f32; 3]) -> CSGNode {
    CSGNode::Box(BoxShape { center: bits3(center), radius: bits3(radius) })
}

fn union(left: CSGNode, right: CSGNode) -> CSGNode {
    CSGNode::Union(Union(Box::new(left), Box::new(right)))
}

fn subtraction(left: CSGNode, right: CSGNode) -> CSGNode {
    CSGNode::Subtraction(Subtraction(Box::new(left), Box::new(right)))
}

fn sphere_distance(p: [f32; 3], center: [f32; 3], radius: f32) -> f32 {
    let d = [p[0] - center[0], p[1] - center[1], p[2] - center[2]];
    (d[0] * d[0] + d[1] * d[1] + d[2] * d[2]).sqrt() - radius
}

fn box_distance(p: [f32; 3], center: [f32; 3], radius: [f32; 3]) -> f32 {
    let q = [
        (p[0] - center[0]).abs() - radius[0],
        (p[1] - center[1]).abs() - radius[1],
        (p[2] - center[2]).abs() - radius[2],
    ];
    let outside = [q[0].max(0.0), q[1].max(0.0), q[2].max(0.0)];
    (outside[0] * outside[0] + outside[1] * outside[1] + outside[2] * outside[2]).sqrt()
        + q[0].max(q[1]).max(q[2]).min(0.0)
}

/// The distance of `p` to the scene, from the tree.
fn distance(node: &CSGNode, p: [f32; 3]) -> f32 {
    match node {
        CSGNode::Sphere(s) => {
            sphere_distance(p, vec3(&s.center), f32::from_bits(s.radius))
        }
        CSGNode::Box(b) => box_distance(p, vec3(&b.center), vec3(&b.radius)),
        CSGNode::Union(Union(l, r)) => distance(l, p).min(distance(r, p)),
        CSGNode::Subtraction(Subtraction(l, r)) => distance(l, p).max(-distance(r, p)),
    }
}

/// The stack machine on the buffers: the stack it ends with.
fn run(count: u32, opcodes: &[u32], params: &[u32], p: [f32; 3]) -> Vec<f32> {
    let mut stack = Vec::new();
    let mut cursor = 0usize;
    for word in &opcodes[..count as usize] {
        let kind = CSGCommandType::from_code(*word).unwrap();
        let words = &params[cursor..cursor + kind.param_words()];
        cursor += kind.param_words();
        match kind {
            CSGCommandType::Sphere => {
                stack.push(sphere_distance(p, vec3(&words[0..3]), f32::from_bits(words[3])))
            }
            CSGCommandType::Box => {
                stack.push(box_distance(p, vec3(&words[0..3]), vec3(&words[3..6])))
            }
            CSGCommandType::Union => {
                let right = stack.pop().unwrap();
                let left = stack.pop().unwrap();
                stack.push(left.min(right));
            }
            CSGCommandType::Subtraction => {
                let right = stack.pop().unwrap();
                let left = stack.pop().unwrap();
                stack.push(left.max(-right));
            }
        }
    }
    assert_eq!(cursor, if count == 0 { 0 } else { params.len() });
    stack
}

fn sample_points() -> Vec<[f32; 3]> {
    let mut points = Vec::new();
    for x in -3..=3 {
        for y in -3..=3 {
            for z in -3..=3 {
                points.push([x as f32 * 0.75, y as f32 * 0.6, z as f32 * 0.9]);
            }
        }
    }
    points
}

fn check_round_trip(tree: CSGNode) {
    let scene = Some(tree);
    let (count, opcodes, params) = compile(&scene).unwrap();
    let tree = scene.unwrap();
    for p in sample_points() {
        let stack = run(count, &opcodes, &params, p);
        assert_eq!(stack.len(), 1);
        assert_eq!(stack[0].to_bits(), distance(&tree, p).to_bits());
    }
}

#[test]
fn single_sphere_round_trips() {
    check_round_trip(sphere([0.5, 0.0, -0.5], 1.25));
}

#[test]
fn single_box_round_trips() {
    check_round_trip(cuboid([0.5, 0.0, -0.5], [1.0, 0.5, 0.25]));
}

#[test]
fn union_of_two_spheres_round_trips() {
    check_round_trip(union(sphere([0.0; 3], 1.0), sphere([1.0, 0.0, 0.0], 1.0)));
}

#[test]
fn subtraction_of_two_spheres_round_trips() {
    check_round_trip(subtraction(sphere([0.0; 3], 1.0), sphere([1.0, 0.0, 0.0], 1.0)));
}

#[test]
fn subtraction_is_not_symmetric_on_the_stack() {
    let tree = subtraction(sphere([0.0; 3], 2.0), sphere([0.0; 3], 1.0));
    let scene = Some(tree);
    let (count, opcodes, params) = compile(&scene).unwrap();
    let stack = run(count, &opcodes, &params, [1.5, 0.0, 0.0]);
    assert_eq!(stack, vec![-0.5]);
    let stack = run(count, &opcodes, &params, [0.0, 0.0, 0.0]);
    assert_eq!(stack, vec![1.0]);
}

#[test]
fn nested_union_of_subtraction_round_trips() {
    check_round_trip(union(
        subtraction(sphere([0.0; 3], 1.5), cuboid([0.5, 0.5, 0.0], [0.5, 0.5, 2.0])),
        union(
            sphere([-1.0, 1.0, 0.0], 0.5),
            subtraction(cuboid([1.0, -1.0, 0.5], [1.0, 1.0, 1.0]), sphere([1.0, -1.0, 0.5], 1.2)),
        ),
    ));
}

#[test]
fn left_deep_and_right_deep_trees_round_trip() {
    let mut left_deep = sphere([0.0; 3], 0.5);
    let mut right_deep = sphere([0.0; 3], 0.5);
    for i in 1..6 {
        let next = sphere([i as f32 * 0.4, 0.0, 0.0], 0.5);
        left_deep = union(left_deep, next.clone());
        right_deep = subtraction(next, right_deep);
    }
    check_round_trip(left_deep);
    check_round_trip(right_deep);
}

#[test]
fn empty_scene_leaves_the_stack_empty() {
    let (count, opcodes, params) = compile(&None).unwrap();
    assert_eq!(run(count, &opcodes, &params, [0.0; 3]), Vec::<f32>::new());
}
