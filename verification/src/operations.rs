//! Binary operators.

use vstd::prelude::*;
use crate::builder::CSGCommandBufferBuilder;
use crate::command::{CSGCommandType, Command};
use crate::node::{BuildCommands, CSGNode};

verus! {

/// Everything that is in the first scene or in the second.
#[derive(Debug, PartialEq, Eq)]
pub struct Union(pub Box<CSGNode>, pub Box<CSGNode>);

/// Everything that is in the first scene and not in the second.
#[derive(Debug, PartialEq, Eq)]
pub struct Subtraction(pub Box<CSGNode>, pub Box<CSGNode>);

impl Clone for Union {
    fn clone(&self) -> (copy: Self)
        ensures
            copy == *self,
        decreases self,
    {
        Union(Box::new((*self.0).clone()), Box::new((*self.1).clone()))
    }
}

impl Clone for Subtraction {
    fn clone(&self) -> (copy: Self)
        ensures
            copy == *self,
        decreases self,
    {
        Subtraction(Box::new((*self.0).clone()), Box::new((*self.1).clone()))
    }
}

impl BuildCommands for Union {
    open spec fn encoded_commands(&self, base: nat) -> Seq<Command> {
        CSGNode::Union(*self).commands(base)
    }

    open spec fn encoded_params(&self) -> Seq<u32> {
        CSGNode::Union(*self).param_words()
    }

    fn build_commands(&self, builder: &mut CSGCommandBufferBuilder)
        decreases self,
    {
        let ghost base = builder.parameters().len();
        let ghost mid = base + self.0.param_words().len();
        proof {
            CSGNode::Union(*self).lemma_commands_len(0);
            self.0.lemma_commands_len(0);
            self.0.lemma_commands_len(base);
            self.1.lemma_commands_len(0);
            self.1.lemma_commands_len(mid);
        }
        self.0.build_commands(builder);
        self.1.build_commands(builder);
        builder.push_command(CSGCommandType::Union);
        assert(builder.instructions() =~= old(builder).instructions() + self.encoded_commands(
            base,
        ));
        assert(builder.parameters() =~= old(builder).parameters() + self.encoded_params());
    }
}

impl BuildCommands for Subtraction {
    open spec fn encoded_commands(&self, base: nat) -> Seq<Command> {
        CSGNode::Subtraction(*self).commands(base)
    }

    open spec fn encoded_params(&self) -> Seq<u32> {
        CSGNode::Subtraction(*self).param_words()
    }

    fn build_commands(&self, builder: &mut CSGCommandBufferBuilder)
        decreases self,
    {
        let ghost base = builder.parameters().len();
        let ghost mid = base + self.0.param_words().len();
        proof {
            CSGNode::Subtraction(*self).lemma_commands_len(0);
            self.0.lemma_commands_len(0);
            self.0.lemma_commands_len(base);
            self.1.lemma_commands_len(0);
            self.1.lemma_commands_len(mid);
        }
        self.0.build_commands(builder);
        self.1.build_commands(builder);
        builder.push_command(CSGCommandType::Subtraction);
        assert(builder.instructions() =~= old(builder).instructions() + self.encoded_commands(
            base,
        ));
        assert(builder.parameters() =~= old(builder).parameters() + self.encoded_params());
    }
}

impl From<(Box<CSGNode>, Box<CSGNode>)> for Subtraction {
    fn from(operands: (Box<CSGNode>, Box<CSGNode>)) -> (subtraction: Self) {
        Subtraction(operands.0, operands.1)
    }
}

impl vstd::std_specs::convert::FromSpecImpl<(Box<CSGNode>, Box<CSGNode>)> for Subtraction {
    open spec fn obeys_from_spec() -> bool {
        true
    }

    open spec fn from_spec(operands: (Box<CSGNode>, Box<CSGNode>)) -> Self {
        Subtraction(operands.0, operands.1)
    }
}

} // verus!
