//! The stack machine that consumes a command buffer, in ghost code, and the
//! proof that it computes what the scene tree means.
//!
//! The machine reads the opcode words from left to right and keeps a cursor
//! into the parameter words. A primitive reads its parameters at the cursor
//! and pushes a value; a binary operator pops two values and pushes their
//! combination. What a value is, is left open: the laws below hold for every
//! choice of the functions that make and combine values.

use vstd::prelude::*;
use crate::builder::opcode_words;
use crate::command::CSGCommandType;
use crate::node::CSGNode;
use crate::operations::{Subtraction, Union};
use crate::primitives::Sphere;

verus! {

/// One step of the machine on the opcode word `word`, from the stack and
/// cursor in `state`. The machine halts (`None`) on a word that is no
/// opcode, on a primitive whose parameters are not all there, and on an
/// operator that finds fewer than two values.
pub open spec fn step<V>(
    state: Option<(Seq<V>, nat)>,
    word: u32,
    params: Seq<u32>,
    leaf: spec_fn(CSGCommandType, Seq<u32>) -> V,
    combine: spec_fn(CSGCommandType, V, V) -> V,
) -> Option<(Seq<V>, nat)> {
    match (state, CSGCommandType::spec_from_code(word)) {
        (Some((stack, cursor)), Some(kind)) => {
            if kind.spec_is_primitive() {
                let end = cursor + kind.spec_param_words();
                if end <= params.len() {
                    Some((stack.push(leaf(kind, params.subrange(cursor as int, end as int))), end))
                } else {
                    None
                }
            } else if stack.len() >= 2 {
                let right = stack[stack.len() - 1];
                let left = stack[stack.len() - 2];
                Some((stack.take(stack.len() - 2).push(combine(kind, left, right)), cursor))
            } else {
                None
            }
        },
        _ => None,
    }
}

/// The stack and the cursor after the machine has run all of `opcodes`,
/// starting with an empty stack at the first parameter word.
pub open spec fn run<V>(
    opcodes: Seq<u32>,
    params: Seq<u32>,
    leaf: spec_fn(CSGCommandType, Seq<u32>) -> V,
    combine: spec_fn(CSGCommandType, V, V) -> V,
) -> Option<(Seq<V>, nat)>
    decreases opcodes.len(),
{
    if opcodes.len() == 0 {
        Some((Seq::empty(), 0))
    } else {
        step(run(opcodes.drop_last(), params, leaf, combine), opcodes.last(), params, leaf, combine)
    }
}

impl CSGNode {
    /// What the tree means: the value of a primitive is made from its kind
    /// and its parameter words, that of an operator from its kind and the
    /// values of its two children.
    pub open spec fn interpret<V>(
        self,
        leaf: spec_fn(CSGCommandType, Seq<u32>) -> V,
        combine: spec_fn(CSGCommandType, V, V) -> V,
    ) -> V
        decreases self,
    {
        match self {
            CSGNode::Sphere(_) => leaf(CSGCommandType::Sphere, self.param_words()),
            CSGNode::Box(_) => leaf(CSGCommandType::Box, self.param_words()),
            CSGNode::Union(u) => combine(
                CSGCommandType::Union,
                u.0.interpret(leaf, combine),
                u.1.interpret(leaf, combine),
            ),
            CSGNode::Subtraction(s) => combine(
                CSGCommandType::Subtraction,
                s.0.interpret(leaf, combine),
                s.1.interpret(leaf, combine),
            ),
        }
    }

    /// The opcode words of the tree, in post-order.
    pub open spec fn opcodes(self) -> Seq<u32>
        decreases self,
    {
        match self {
            CSGNode::Sphere(_) => seq![CSGCommandType::Sphere.spec_code()],
            CSGNode::Box(_) => seq![CSGCommandType::Box.spec_code()],
            CSGNode::Union(u) => (u.0.opcodes() + u.1.opcodes()).push(
                CSGCommandType::Union.spec_code(),
            ),
            CSGNode::Subtraction(s) => (s.0.opcodes() + s.1.opcodes()).push(
                CSGCommandType::Subtraction.spec_code(),
            ),
        }
    }

    /// The opcode words of the tree's instructions do not depend on where
    /// its parameters start.
    pub proof fn lemma_opcode_words(self, base: nat)
        ensures
            opcode_words(self.commands(base)) == self.opcodes(),
        decreases self,
    {
        match self {
            CSGNode::Sphere(_) => {
                assert(opcode_words(self.commands(base)) =~= self.opcodes());
            },
            CSGNode::Box(_) => {
                assert(opcode_words(self.commands(base)) =~= self.opcodes());
            },
            CSGNode::Union(u) => {
                u.0.lemma_opcode_words(base);
                u.1.lemma_opcode_words(base + u.0.param_words().len());
                assert(opcode_words(self.commands(base)) =~= self.opcodes());
            },
            CSGNode::Subtraction(s) => {
                s.0.lemma_opcode_words(base);
                s.1.lemma_opcode_words(base + s.0.param_words().len());
                assert(opcode_words(self.commands(base)) =~= self.opcodes());
            },
        }
    }
}

/// Running the machine over a stream that ends with the instructions of
/// `node`, whose parameters lie at the cursor, leaves what the stream
/// before them left, with the value of `node` pushed on top and the cursor
/// behind the parameters of `node`.
pub proof fn lemma_run_appended<V>(
    before: Seq<u32>,
    node: CSGNode,
    params: Seq<u32>,
    leaf: spec_fn(CSGCommandType, Seq<u32>) -> V,
    combine: spec_fn(CSGCommandType, V, V) -> V,
)
    requires
        run(before, params, leaf, combine) matches Some((_, cursor)) && {
            &&& cursor + node.param_words().len() <= params.len()
            &&& params.subrange(cursor as int, (cursor + node.param_words().len()) as int)
                == node.param_words()
        },
    ensures
        run(before + node.opcodes(), params, leaf, combine) == {
            let (stack, cursor) = run(before, params, leaf, combine).unwrap();
            Some(
                (
                    stack.push(node.interpret(leaf, combine)),
                    (cursor + node.param_words().len()) as nat,
                ),
            )
        },
    decreases node, 1nat,
{
    let (stack, cursor) = run(before, params, leaf, combine).unwrap();
    let words = node.param_words();
    match node {
        CSGNode::Sphere(s) => {
            let stream = before + node.opcodes();
            assert(stream.drop_last() =~= before);
            assert(stream.last() == 0u32);
        },
        CSGNode::Box(b) => {
            let stream = before + node.opcodes();
            assert(stream.drop_last() =~= before);
            assert(stream.last() == 1u32);
        },
        CSGNode::Union(u) => {
            lemma_run_operator(before, node, params, leaf, combine);
            assert(before + node.opcodes() =~= (before + u.0.opcodes() + u.1.opcodes()).push(
                CSGCommandType::Union.spec_code(),
            ));
        },
        CSGNode::Subtraction(s) => {
            lemma_run_operator(before, node, params, leaf, combine);
            assert(before + node.opcodes() =~= (before + s.0.opcodes() + s.1.opcodes()).push(
                CSGCommandType::Subtraction.spec_code(),
            ));
        },
    }
}

/// The step of `lemma_run_appended` for an operator.
proof fn lemma_run_operator<V>(
    before: Seq<u32>,
    node: CSGNode,
    params: Seq<u32>,
    leaf: spec_fn(CSGCommandType, Seq<u32>) -> V,
    combine: spec_fn(CSGCommandType, V, V) -> V,
)
    requires
        node.children() is Some,
        run(before, params, leaf, combine) matches Some((_, cursor)) && {
            let (left, right) = node.children().unwrap();
            let words = left.param_words() + right.param_words();
            &&& cursor + words.len() <= params.len()
            &&& params.subrange(cursor as int, (cursor + words.len()) as int) == words
        },
    ensures
        ({
            let (left, right) = node.children().unwrap();
            let kind = node.opcode();
            let (stack, cursor) = run(before, params, leaf, combine).unwrap();
            run(
                (before + left.opcodes() + right.opcodes()).push(kind.spec_code()),
                params,
                leaf,
                combine,
            ) == Some(
                (
                    stack.push(
                        combine(
                            kind,
                            left.interpret(leaf, combine),
                            right.interpret(leaf, combine),
                        ),
                    ),
                    (cursor + left.param_words().len() + right.param_words().len()) as nat,
                ),
            )
        }),
    decreases node, 0nat,
{
    let (left, right) = node.children().unwrap();
    let kind = node.opcode();
    let (stack, cursor) = run(before, params, leaf, combine).unwrap();
    let words = left.param_words() + right.param_words();
    let mid = cursor + left.param_words().len();
    let end = mid + right.param_words().len();
    assert(params.subrange(cursor as int, mid as int) =~= left.param_words()) by {
        assert(params.subrange(cursor as int, mid as int) =~= words.subrange(
            0,
            left.param_words().len() as int,
        ));
    }
    assert(params.subrange(mid as int, end as int) =~= right.param_words()) by {
        assert(params.subrange(mid as int, end as int) =~= words.subrange(
            left.param_words().len() as int,
            words.len() as int,
        ));
    }
    lemma_run_appended(before, left, params, leaf, combine);
    lemma_run_appended(before + left.opcodes(), right, params, leaf, combine);
    let operands = before + left.opcodes() + right.opcodes();
    let stream = operands.push(kind.spec_code());
    assert(stream.drop_last() =~= operands);
    assert(stream.last() == kind.spec_code());
    let l = left.interpret(leaf, combine);
    let r = right.interpret(leaf, combine);
    let full = stack.push(l).push(r);
    assert(run(operands, params, leaf, combine) == Some((full, end as nat)));
    assert(full.take(full.len() - 2) =~= stack);
}

/// The machine, run over the instructions and parameters of a tree, ends
/// with exactly one value on its stack, the value that the tree means, and
/// has read every parameter word. This holds whatever the values are and
/// however primitives make them and operators combine them: for distances
/// at any sample point in particular.
pub proof fn lemma_round_trip<V>(
    node: CSGNode,
    leaf: spec_fn(CSGCommandType, Seq<u32>) -> V,
    combine: spec_fn(CSGCommandType, V, V) -> V,
)
    ensures
        run(opcode_words(node.commands(0)), node.param_words(), leaf, combine) == Some(
            (seq![node.interpret(leaf, combine)], node.param_words().len()),
        ),
{
    let params = node.param_words();
    node.lemma_opcode_words(0);
    let before = Seq::<u32>::empty();
    assert(params.subrange(0, params.len() as int) =~= params);
    lemma_run_appended(before, node, params, leaf, combine);
    assert(before + node.opcodes() =~= node.opcodes());
    assert(Seq::<V>::empty().push(node.interpret(leaf, combine)) =~= seq![
        node.interpret(leaf, combine),
    ]);
}

/// The primitive that an opcode and its parameter words stand for.
pub open spec fn primitive_of(kind: CSGCommandType, words: Seq<u32>) -> CSGNode {
    match kind {
        CSGCommandType::Box => CSGNode::Box(
            crate::primitives::Box {
                center: [words[0], words[1], words[2]],
                radius: [words[3], words[4], words[5]],
            },
        ),
        _ => CSGNode::Sphere(Sphere { center: [words[0], words[1], words[2]], radius: words[3] }),
    }
}

/// The operator that an opcode stands for, over two operands.
pub open spec fn operator_of(kind: CSGCommandType, left: CSGNode, right: CSGNode) -> CSGNode {
    match kind {
        CSGCommandType::Subtraction => CSGNode::Subtraction(
            Subtraction(Box::new(left), Box::new(right)),
        ),
        _ => CSGNode::Union(Union(Box::new(left), Box::new(right))),
    }
}

impl CSGNode {
    /// A tree means itself where values are trees: putting the primitives
    /// and operators together again gives the tree back.
    pub proof fn lemma_interprets_to_itself(self)
        ensures
            self.interpret(
                |kind: CSGCommandType, words: Seq<u32>| primitive_of(kind, words),
                |kind: CSGCommandType, left: CSGNode, right: CSGNode|
                    operator_of(kind, left, right),
            ) == self,
        decreases self,
    {
        match self {
            CSGNode::Sphere(s) => {
                let words = self.param_words();
                assert([words[0], words[1], words[2]] =~= s.center);
            },
            CSGNode::Box(b) => {
                let words = self.param_words();
                assert([words[0], words[1], words[2]] =~= b.center);
                assert([words[3], words[4], words[5]] =~= b.radius);
            },
            CSGNode::Union(u) => {
                u.0.lemma_interprets_to_itself();
                u.1.lemma_interprets_to_itself();
            },
            CSGNode::Subtraction(s) => {
                s.0.lemma_interprets_to_itself();
                s.1.lemma_interprets_to_itself();
            },
        }
    }
}

/// Nothing is lost in a command buffer: the machine, with trees for values,
/// puts the tree together again from its instructions and parameters, so
/// two trees with the same instructions and the same parameters are the
/// same tree.
pub proof fn lemma_encoding_is_lossless(first: CSGNode, second: CSGNode)
    requires
        opcode_words(first.commands(0)) == opcode_words(second.commands(0)),
        first.param_words() == second.param_words(),
    ensures
        first == second,
{
    let leaf = |kind: CSGCommandType, words: Seq<u32>| primitive_of(kind, words);
    let combine = |kind: CSGCommandType, left: CSGNode, right: CSGNode|
        operator_of(kind, left, right);
    lemma_round_trip(first, leaf, combine);
    lemma_round_trip(second, leaf, combine);
    first.lemma_interprets_to_itself();
    second.lemma_interprets_to_itself();
    let stack = seq![first.interpret(leaf, combine)];
    assert(stack[0] == first);
    assert(seq![second.interpret(leaf, combine)][0] == second);
}

} // verus!
