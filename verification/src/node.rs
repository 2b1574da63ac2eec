//! The scene tree and its flattening into a command buffer.

use vstd::prelude::*;
use crate::builder::{opcode_words, padded, CSGCommandBufferBuilder};
use crate::command::{CSGCommandType, Command};
use crate::operations::{Subtraction, Union};
use crate::primitives::Sphere;

verus! {

/// A node that can append its instructions to a command buffer.
pub trait BuildCommands {
    /// The instructions of this node and of everything below it, in
    /// post-order, when `base` parameter words precede them.
    spec fn encoded_commands(&self, base: nat) -> Seq<Command>;

    /// The parameter words of this node and of everything below it, in the
    /// order of their instructions.
    spec fn encoded_params(&self) -> Seq<u32>;

    /// Appends the instructions and parameters of this node, children
    /// first, to `builder`.
    fn build_commands(&self, builder: &mut CSGCommandBufferBuilder)
        requires
            old(builder).instructions().len() + self.encoded_commands(0).len() <= u32::MAX,
            old(builder).parameters().len() + self.encoded_params().len() <= u32::MAX,
        ensures
            final(builder).instructions() == old(builder).instructions() + self.encoded_commands(
                old(builder).parameters().len(),
            ),
            final(builder).parameters() == old(builder).parameters() + self.encoded_params(),
    ;
}

/// A scene: a primitive shape, or an operator applied to two scenes that it
/// owns.
#[derive(Debug, PartialEq, Eq)]
pub enum CSGNode {
    Sphere(Sphere),
    Box(crate::primitives::Box),
    Union(Union),
    Subtraction(Subtraction),
}

impl CSGNode {
    /// The kind of instruction that this node itself contributes.
    pub open spec fn opcode(self) -> CSGCommandType {
        match self {
            CSGNode::Sphere(_) => CSGCommandType::Sphere,
            CSGNode::Box(_) => CSGCommandType::Box,
            CSGNode::Union(_) => CSGCommandType::Union,
            CSGNode::Subtraction(_) => CSGCommandType::Subtraction,
        }
    }

    /// The two operands of an operator, left then right; a primitive has
    /// none.
    pub open spec fn children(self) -> Option<(CSGNode, CSGNode)> {
        match self {
            CSGNode::Sphere(_) => None,
            CSGNode::Box(_) => None,
            CSGNode::Union(u) => Some((*u.0, *u.1)),
            CSGNode::Subtraction(s) => Some((*s.0, *s.1)),
        }
    }

    /// Number of nodes of the tree, which is the number of its instructions.
    pub open spec fn instruction_count(self) -> nat
        decreases self,
    {
        match self {
            CSGNode::Sphere(_) => 1,
            CSGNode::Box(_) => 1,
            CSGNode::Union(u) => u.0.instruction_count() + u.1.instruction_count() + 1,
            CSGNode::Subtraction(s) => s.0.instruction_count() + s.1.instruction_count() + 1,
        }
    }

    /// The parameter words of the tree, in post-order.
    pub open spec fn param_words(self) -> Seq<u32>
        decreases self,
    {
        match self {
            CSGNode::Sphere(s) => s.center@.push(s.radius),
            CSGNode::Box(b) => b.center@ + b.radius@,
            CSGNode::Union(u) => u.0.param_words() + u.1.param_words(),
            CSGNode::Subtraction(s) => s.0.param_words() + s.1.param_words(),
        }
    }

    /// The instructions of the tree, in post-order, when `base` parameter
    /// words precede those of the tree.
    pub open spec fn commands(self, base: nat) -> Seq<Command>
        decreases self,
    {
        match self {
            CSGNode::Sphere(_) => seq![
                Command { opcode: CSGCommandType::Sphere, parameter_offset: base as u32 },
            ],
            CSGNode::Box(_) => seq![
                Command { opcode: CSGCommandType::Box, parameter_offset: base as u32 },
            ],
            CSGNode::Union(u) => (u.0.commands(base) + u.1.commands(
                base + u.0.param_words().len(),
            )).push(
                Command {
                    opcode: CSGCommandType::Union,
                    parameter_offset: (base + u.0.param_words().len()
                        + u.1.param_words().len()) as u32,
                },
            ),
            CSGNode::Subtraction(s) => (s.0.commands(base) + s.1.commands(
                base + s.0.param_words().len(),
            )).push(
                Command {
                    opcode: CSGCommandType::Subtraction,
                    parameter_offset: (base + s.0.param_words().len()
                        + s.1.param_words().len()) as u32,
                },
            ),
        }
    }
}

impl CSGNode {
    /// A tree has one instruction for each of its nodes, wherever its
    /// parameters start.
    pub proof fn lemma_commands_len(self, base: nat)
        ensures
            self.commands(base).len() == self.instruction_count(),
            self.instruction_count() >= 1,
        decreases self,
    {
        match self {
            CSGNode::Sphere(_) => {},
            CSGNode::Box(_) => {},
            CSGNode::Union(u) => {
                u.0.lemma_commands_len(base);
                u.1.lemma_commands_len(base + u.0.param_words().len());
            },
            CSGNode::Subtraction(s) => {
                s.0.lemma_commands_len(base);
                s.1.lemma_commands_len(base + s.0.param_words().len());
            },
        }
    }
}

impl Clone for CSGNode {
    /// A copy of the whole tree.
    fn clone(&self) -> (copy: Self)
        ensures
            copy == *self,
        decreases self,
    {
        match self {
            CSGNode::Sphere(s) => CSGNode::Sphere(*s),
            CSGNode::Box(b) => CSGNode::Box(*b),
            CSGNode::Union(u) => CSGNode::Union(u.clone()),
            CSGNode::Subtraction(s) => CSGNode::Subtraction(s.clone()),
        }
    }
}

impl BuildCommands for CSGNode {
    open spec fn encoded_commands(&self, base: nat) -> Seq<Command> {
        self.commands(base)
    }

    open spec fn encoded_params(&self) -> Seq<u32> {
        self.param_words()
    }

    fn build_commands(&self, builder: &mut CSGCommandBufferBuilder)
        decreases self,
    {
        match self {
            CSGNode::Sphere(s) => s.build_commands(builder),
            CSGNode::Box(b) => b.build_commands(builder),
            CSGNode::Union(u) => u.build_commands(builder),
            CSGNode::Subtraction(s) => s.build_commands(builder),
        }
    }
}

impl CSGNode {
    /// Size of the encoding of the tree: the number of its instructions and
    /// the number of its parameter words, or `None` where one of the two
    /// does not fit in 32 bits.
    pub fn encoded_size(&self) -> (size: Option<(u32, u32)>)
        ensures
            size matches Some((count, words)) ==> count == self.instruction_count() && words
                == self.param_words().len(),
            size is None <==> self.instruction_count() > u32::MAX || self.param_words().len()
                > u32::MAX,
        decreases self,
    {
        match self {
            CSGNode::Sphere(_) => Some((1, 4)),
            CSGNode::Box(_) => Some((1, 6)),
            CSGNode::Union(u) => sum_sizes(u.0.encoded_size(), u.1.encoded_size()),
            CSGNode::Subtraction(s) => sum_sizes(s.0.encoded_size(), s.1.encoded_size()),
        }
    }
}

/// Size of an operator over two operands of the given sizes.
fn sum_sizes(left: Option<(u32, u32)>, right: Option<(u32, u32)>) -> (size: Option<(u32, u32)>)
    ensures
        size matches Some((count, words)) ==> left is Some && right is Some && count
            == left.unwrap().0 + right.unwrap().0 + 1 && words == left.unwrap().1
            + right.unwrap().1,
        size is None <==> left is None || right is None || left.unwrap().0 + right.unwrap().0 + 1
            > u32::MAX || left.unwrap().1 + right.unwrap().1 > u32::MAX,
{
    match (left, right) {
        (Some((left_count, left_words)), Some((right_count, right_words))) => {
            match (left_count.checked_add(right_count), left_words.checked_add(right_words)) {
                (Some(count), Some(words)) => match count.checked_add(1) {
                    Some(count) => Some((count, words)),
                    None => None,
                },
                _ => None,
            }
        },
        _ => None,
    }
}

/// The instructions and the parameter words of an optional scene, which are
/// none where there is no scene.
pub open spec fn scene_encoding(scene: Option<CSGNode>) -> (Seq<Command>, Seq<u32>) {
    match scene {
        None => (Seq::empty(), Seq::empty()),
        Some(node) => (node.commands(0), node.param_words()),
    }
}

/// Encodes the scene of one frame: the number of instructions, then the
/// contents of the instruction buffer and of the parameter buffer.
///
/// With no scene the count is zero and each buffer holds its one padding
/// word, which a consumer that looks at the count first never reads. A tree
/// whose encoding does not fit the 32-bit counts of the device gives `None`.
pub fn compile(scene: &Option<CSGNode>) -> (built: Option<(u32, Vec<u32>, Vec<u32>)>)
    ensures
        built is Some <==> scene_encoding(*scene).0.len() <= u32::MAX && scene_encoding(
            *scene,
        ).1.len() <= u32::MAX,
        built matches Some((count, opcodes, params)) ==> {
            &&& count == scene_encoding(*scene).0.len()
            &&& opcodes@ == padded(opcode_words(scene_encoding(*scene).0))
            &&& params@ == padded(scene_encoding(*scene).1)
        },
        *scene is None ==> (built matches Some((count, opcodes, params)) && count == 0
            && opcodes@ == seq![0u32] && params@ == seq![0u32]),
{
    let mut builder = CSGCommandBufferBuilder::new();
    match scene {
        None => {},
        Some(node) => {
            proof {
                node.lemma_commands_len(0);
            }
            if node.encoded_size().is_none() {
                return None;
            }
            node.build_commands(&mut builder);
            assert(builder.instructions() =~= node.commands(0));
            assert(builder.parameters() =~= node.param_words());
        },
    }
    assert(opcode_words(Seq::<Command>::empty()) =~= Seq::<u32>::empty());
    Some(builder.build())
}

impl From<Sphere> for CSGNode {
    fn from(sphere: Sphere) -> (node: Self) {
        CSGNode::Sphere(sphere)
    }
}

impl vstd::std_specs::convert::FromSpecImpl<Sphere> for CSGNode {
    open spec fn obeys_from_spec() -> bool {
        true
    }

    open spec fn from_spec(sphere: Sphere) -> Self {
        CSGNode::Sphere(sphere)
    }
}

impl From<crate::primitives::Box> for CSGNode {
    fn from(shape: crate::primitives::Box) -> (node: Self) {
        CSGNode::Box(shape)
    }
}

impl vstd::std_specs::convert::FromSpecImpl<crate::primitives::Box> for CSGNode {
    open spec fn obeys_from_spec() -> bool {
        true
    }

    open spec fn from_spec(shape: crate::primitives::Box) -> Self {
        CSGNode::Box(shape)
    }
}

impl From<Union> for CSGNode {
    fn from(union: Union) -> (node: Self) {
        CSGNode::Union(union)
    }
}

impl vstd::std_specs::convert::FromSpecImpl<Union> for CSGNode {
    open spec fn obeys_from_spec() -> bool {
        true
    }

    open spec fn from_spec(union: Union) -> Self {
        CSGNode::Union(union)
    }
}

impl From<Subtraction> for CSGNode {
    fn from(subtraction: Subtraction) -> (node: Self) {
        CSGNode::Subtraction(subtraction)
    }
}

impl vstd::std_specs::convert::FromSpecImpl<Subtraction> for CSGNode {
    open spec fn obeys_from_spec() -> bool {
        true
    }

    open spec fn from_spec(subtraction: Subtraction) -> Self {
        CSGNode::Subtraction(subtraction)
    }
}

} // verus!
