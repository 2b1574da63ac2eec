//! The kinds of scene node that a graph can hold: what inputs each declares
//! and how it makes a scene from their values.

use vstd::prelude::*;
use vstd::hash_map::StringHashMap;
use crate::node::CSGNode;
use crate::operations::{Subtraction, Union};
use crate::primitives::Sphere;
use crate::value::{InputParamKind, ValueType};

verus! {

/// Bit pattern of the number one.
pub const ONE: u32 = 0x3f80_0000;

/// The values of the inputs of a node, by name.
pub type InputValues = StringHashMap<ValueType>;

/// An input as a template declares it: its name, the constant it starts
/// with, and its kind.
pub type DeclaredInput = (Seq<char>, ValueType, InputParamKind);

/// What a list of declared inputs says, with each name as its characters.
pub open spec fn declared(params: Seq<(&'static str, ValueType, InputParamKind)>) -> Seq<
    DeclaredInput,
> {
    Seq::new(params.len(), |i: int| (params[i].0@, params[i].1, params[i].2))
}

/// The inputs of a shape with a center and one more input, both set in
/// place unless connected.
pub open spec fn shape_inputs(second: Seq<char>, value: ValueType) -> Seq<DeclaredInput> {
    seq![
        ("center"@, ValueType::Vec3([0u32, 0u32, 0u32]), InputParamKind::ConnectionOrConstant),
        (second, value, InputParamKind::ConnectionOrConstant),
    ]
}

/// The inputs of a binary operator: two scenes, which only a connection can
/// bring.
pub open spec fn operator_inputs() -> Seq<DeclaredInput> {
    seq![
        ("A"@, ValueType::CSGNode(None), InputParamKind::ConnectionOnly),
        ("B"@, ValueType::CSGNode(None), InputParamKind::ConnectionOnly),
    ]
}

/// The two scenes that the inputs `A` and `B` hold, if both hold one.
pub open spec fn operands(inputs: Map<Seq<char>, ValueType>) -> Option<(CSGNode, CSGNode)> {
    match (inputs["A"@].spec_to_csg_node(), inputs["B"@].spec_to_csg_node()) {
        (Some(lhs), Some(rhs)) => Some((lhs, rhs)),
        _ => None,
    }
}

/// A kind of scene node.
pub trait CSGNodeTemplateTrait {
    spec fn spec_name(&self) -> Seq<char>;

    spec fn spec_input_params(&self) -> Seq<DeclaredInput>;

    /// Whether `inputs` holds what `evaluate` reads without a test: every
    /// input that the template looks up, and a number where it expects one.
    spec fn accepts(&self, inputs: Map<Seq<char>, ValueType>) -> bool;

    spec fn spec_evaluate(&self, inputs: Map<Seq<char>, ValueType>) -> Option<CSGNode>;

    /// The name of the kind.
    fn name(&self) -> (name: &'static str)
        ensures
            name@ == self.spec_name(),
    ;

    /// The inputs that a node of this kind has.
    fn input_params(&self) -> (params: Vec<(&'static str, ValueType, InputParamKind)>)
        ensures
            declared(params@) == self.spec_input_params(),
    ;

    /// The scene that a node of this kind makes from the values of its
    /// inputs, given by name; none where an operand is missing.
    fn evaluate(&self, input_params: InputValues) -> (node: Option<CSGNode>)
        requires
            self.accepts(input_params@),
        ensures
            node == self.spec_evaluate(input_params@),
    ;
}

#[derive(Debug, Clone, Copy, PartialEq, Eq, Structural)]
pub struct SphereTemplate;

#[derive(Debug, Clone, Copy, PartialEq, Eq, Structural)]
pub struct BoxTemplate;

#[derive(Debug, Clone, Copy, PartialEq, Eq, Structural)]
pub struct UnionTemplate;

#[derive(Debug, Clone, Copy, PartialEq, Eq, Structural)]
pub struct SubtractionTemplate;

impl CSGNodeTemplateTrait for SphereTemplate {
    open spec fn spec_name(&self) -> Seq<char> {
        "Sphere"@
    }

    open spec fn spec_input_params(&self) -> Seq<DeclaredInput> {
        shape_inputs("radius"@, ValueType::Scalar(ONE))
    }

    open spec fn accepts(&self, inputs: Map<Seq<char>, ValueType>) -> bool {
        &&& inputs.contains_key("center"@) && inputs["center"@] is Vec3
        &&& inputs.contains_key("radius"@) && inputs["radius"@] is Scalar
    }

    open spec fn spec_evaluate(&self, inputs: Map<Seq<char>, ValueType>) -> Option<CSGNode> {
        Some(
            CSGNode::Sphere(
                Sphere { center: inputs["center"@]->Vec3_0, radius: inputs["radius"@]->Scalar_0 },
            ),
        )
    }

    fn name(&self) -> (name: &'static str) {
        "Sphere"
    }

    fn input_params(&self) -> (params: Vec<(&'static str, ValueType, InputParamKind)>) {
        let params = vec![
            ("center", ValueType::Vec3([0, 0, 0]), InputParamKind::ConnectionOrConstant),
            ("radius", ValueType::Scalar(ONE), InputParamKind::ConnectionOrConstant),
        ];
        assert(declared(params@) =~= self.spec_input_params());
        params
    }

    fn evaluate(&self, input_params: InputValues) -> (node: Option<CSGNode>) {
        let center = input_params.get("center").unwrap().to_vec3().unwrap();
        let radius = input_params.get("radius").unwrap().to_scalar().unwrap();
        Some(CSGNode::Sphere(Sphere { center, radius }))
    }
}

impl CSGNodeTemplateTrait for BoxTemplate {
    open spec fn spec_name(&self) -> Seq<char> {
        "Box"@
    }

    open spec fn spec_input_params(&self) -> Seq<DeclaredInput> {
        shape_inputs("radius"@, ValueType::Vec3([ONE, ONE, ONE]))
    }

    open spec fn accepts(&self, inputs: Map<Seq<char>, ValueType>) -> bool {
        &&& inputs.contains_key("center"@) && inputs["center"@] is Vec3
        &&& inputs.contains_key("radius"@) && inputs["radius"@] is Vec3
    }

    open spec fn spec_evaluate(&self, inputs: Map<Seq<char>, ValueType>) -> Option<CSGNode> {
        Some(
            CSGNode::Box(
                crate::primitives::Box {
                    center: inputs["center"@]->Vec3_0,
                    radius: inputs["radius"@]->Vec3_0,
                },
            ),
        )
    }

    fn name(&self) -> (name: &'static str) {
        "Box"
    }

    fn input_params(&self) -> (params: Vec<(&'static str, ValueType, InputParamKind)>) {
        let params = vec![
            ("center", ValueType::Vec3([0, 0, 0]), InputParamKind::ConnectionOrConstant),
            ("radius", ValueType::Vec3([ONE, ONE, ONE]), InputParamKind::ConnectionOrConstant),
        ];
        assert(declared(params@) =~= self.spec_input_params());
        params
    }

    fn evaluate(&self, input_params: InputValues) -> (node: Option<CSGNode>) {
        let center = input_params.get("center").unwrap().to_vec3().unwrap();
        let radius = input_params.get("radius").unwrap().to_vec3().unwrap();
        Some(CSGNode::Box(crate::primitives::Box { center, radius }))
    }
}

impl CSGNodeTemplateTrait for UnionTemplate {
    open spec fn spec_name(&self) -> Seq<char> {
        "Union"@
    }

    open spec fn spec_input_params(&self) -> Seq<DeclaredInput> {
        operator_inputs()
    }

    open spec fn accepts(&self, inputs: Map<Seq<char>, ValueType>) -> bool {
        inputs.contains_key("A"@) && inputs.contains_key("B"@)
    }

    open spec fn spec_evaluate(&self, inputs: Map<Seq<char>, ValueType>) -> Option<CSGNode> {
        match operands(inputs) {
            Some((lhs, rhs)) => Some(CSGNode::Union(Union(Box::new(lhs), Box::new(rhs)))),
            None => None,
        }
    }

    fn name(&self) -> (name: &'static str) {
        "Union"
    }

    fn input_params(&self) -> (params: Vec<(&'static str, ValueType, InputParamKind)>) {
        let params = vec![
            ("A", ValueType::CSGNode(None), InputParamKind::ConnectionOnly),
            ("B", ValueType::CSGNode(None), InputParamKind::ConnectionOnly),
        ];
        assert(declared(params@) =~= self.spec_input_params());
        params
    }

    fn evaluate(&self, input_params: InputValues) -> (node: Option<CSGNode>) {
        let lhs = input_params.get("A").unwrap().to_csg_node()?;
        let rhs = input_params.get("B").unwrap().to_csg_node()?;
        Some(CSGNode::Union(Union(Box::new(lhs), Box::new(rhs))))
    }
}

impl CSGNodeTemplateTrait for SubtractionTemplate {
    open spec fn spec_name(&self) -> Seq<char> {
        "Subtraction"@
    }

    open spec fn spec_input_params(&self) -> Seq<DeclaredInput> {
        operator_inputs()
    }

    open spec fn accepts(&self, inputs: Map<Seq<char>, ValueType>) -> bool {
        inputs.contains_key("A"@) && inputs.contains_key("B"@)
    }

    open spec fn spec_evaluate(&self, inputs: Map<Seq<char>, ValueType>) -> Option<CSGNode> {
        match operands(inputs) {
            Some((lhs, rhs)) => Some(
                CSGNode::Subtraction(Subtraction(Box::new(lhs), Box::new(rhs))),
            ),
            None => None,
        }
    }

    fn name(&self) -> (name: &'static str) {
        "Subtraction"
    }

    fn input_params(&self) -> (params: Vec<(&'static str, ValueType, InputParamKind)>) {
        let params = vec![
            ("A", ValueType::CSGNode(None), InputParamKind::ConnectionOnly),
            ("B", ValueType::CSGNode(None), InputParamKind::ConnectionOnly),
        ];
        assert(declared(params@) =~= self.spec_input_params());
        params
    }

    fn evaluate(&self, input_params: InputValues) -> (node: Option<CSGNode>) {
        let lhs = input_params.get("A").unwrap().to_csg_node()?;
        let rhs = input_params.get("B").unwrap().to_csg_node()?;
        Some(CSGNode::Subtraction(Subtraction(Box::new(lhs), Box::new(rhs))))
    }
}

/// The kinds of scene node, as one closed type.
#[derive(Debug, Clone, Copy, PartialEq, Eq, Structural)]
pub enum CSGNodeTemplate {
    Sphere(SphereTemplate),
    Box(BoxTemplate),
    Union(UnionTemplate),
    Subtraction(SubtractionTemplate),
}

impl CSGNodeTemplate {
    /// Every kind of scene node, primitives first.
    pub fn all() -> (all: Vec<CSGNodeTemplate>)
        ensures
            all@ == seq![
                CSGNodeTemplate::Sphere(SphereTemplate),
                CSGNodeTemplate::Box(BoxTemplate),
                CSGNodeTemplate::Union(UnionTemplate),
                CSGNodeTemplate::Subtraction(SubtractionTemplate),
            ],
    {
        vec![
            CSGNodeTemplate::Sphere(SphereTemplate),
            CSGNodeTemplate::Box(BoxTemplate),
            CSGNodeTemplate::Union(UnionTemplate),
            CSGNodeTemplate::Subtraction(SubtractionTemplate),
        ]
    }
}

impl CSGNodeTemplateTrait for CSGNodeTemplate {
    open spec fn spec_name(&self) -> Seq<char> {
        match self {
            CSGNodeTemplate::Sphere(t) => t.spec_name(),
            CSGNodeTemplate::Box(t) => t.spec_name(),
            CSGNodeTemplate::Union(t) => t.spec_name(),
            CSGNodeTemplate::Subtraction(t) => t.spec_name(),
        }
    }

    open spec fn spec_input_params(&self) -> Seq<DeclaredInput> {
        match self {
            CSGNodeTemplate::Sphere(t) => t.spec_input_params(),
            CSGNodeTemplate::Box(t) => t.spec_input_params(),
            CSGNodeTemplate::Union(t) => t.spec_input_params(),
            CSGNodeTemplate::Subtraction(t) => t.spec_input_params(),
        }
    }

    open spec fn accepts(&self, inputs: Map<Seq<char>, ValueType>) -> bool {
        match self {
            CSGNodeTemplate::Sphere(t) => t.accepts(inputs),
            CSGNodeTemplate::Box(t) => t.accepts(inputs),
            CSGNodeTemplate::Union(t) => t.accepts(inputs),
            CSGNodeTemplate::Subtraction(t) => t.accepts(inputs),
        }
    }

    open spec fn spec_evaluate(&self, inputs: Map<Seq<char>, ValueType>) -> Option<CSGNode> {
        match self {
            CSGNodeTemplate::Sphere(t) => t.spec_evaluate(inputs),
            CSGNodeTemplate::Box(t) => t.spec_evaluate(inputs),
            CSGNodeTemplate::Union(t) => t.spec_evaluate(inputs),
            CSGNodeTemplate::Subtraction(t) => t.spec_evaluate(inputs),
        }
    }

    fn name(&self) -> (name: &'static str) {
        match self {
            CSGNodeTemplate::Sphere(t) => t.name(),
            CSGNodeTemplate::Box(t) => t.name(),
            CSGNodeTemplate::Union(t) => t.name(),
            CSGNodeTemplate::Subtraction(t) => t.name(),
        }
    }

    fn input_params(&self) -> (params: Vec<(&'static str, ValueType, InputParamKind)>) {
        match self {
            CSGNodeTemplate::Sphere(t) => t.input_params(),
            CSGNodeTemplate::Box(t) => t.input_params(),
            CSGNodeTemplate::Union(t) => t.input_params(),
            CSGNodeTemplate::Subtraction(t) => t.input_params(),
        }
    }

    fn evaluate(&self, input_params: InputValues) -> (node: Option<CSGNode>) {
        match self {
            CSGNodeTemplate::Sphere(t) => t.evaluate(input_params),
            CSGNodeTemplate::Box(t) => t.evaluate(input_params),
            CSGNodeTemplate::Union(t) => t.evaluate(input_params),
            CSGNodeTemplate::Subtraction(t) => t.evaluate(input_params),
        }
    }
}

} // verus!
