//! Primitive shapes.
//!
//! Every number of a shape is held as the bit pattern of a 32-bit IEEE-754
//! value, which is what the evaluator on the device reads.

use vstd::prelude::*;
use crate::builder::CSGCommandBufferBuilder;
use crate::command::{CSGCommandType, Command};
use crate::node::BuildCommands;

verus! {

/// A ball around `center`. No radius is refused: zero and negative ones are
/// the caller's business.
#[derive(Debug, Clone, Copy, PartialEq, Eq)]
pub struct Sphere {
    pub center: [u32; 3],
    pub radius: u32,
}

/// An axis-aligned box around `center` with half-extents `radius`.
#[derive(Debug, Clone, Copy, PartialEq, Eq)]
pub struct Box {
    pub center: [u32; 3],
    pub radius: [u32; 3],
}

impl BuildCommands for Sphere {
    open spec fn encoded_commands(&self, base: nat) -> Seq<Command> {
        seq![Command { opcode: CSGCommandType::Sphere, parameter_offset: base as u32 }]
    }

    open spec fn encoded_params(&self) -> Seq<u32> {
        self.center@.push(self.radius)
    }

    fn build_commands(&self, builder: &mut CSGCommandBufferBuilder) {
        builder.push_command(CSGCommandType::Sphere).push_param_vec3(self.center).push_param_float(
            self.radius,
        );
    }
}

impl BuildCommands for Box {
    open spec fn encoded_commands(&self, base: nat) -> Seq<Command> {
        seq![Command { opcode: CSGCommandType::Box, parameter_offset: base as u32 }]
    }

    open spec fn encoded_params(&self) -> Seq<u32> {
        self.center@ + self.radius@
    }

    fn build_commands(&self, builder: &mut CSGCommandBufferBuilder) {
        builder.push_command(CSGCommandType::Box).push_param_vec3(self.center).push_param_vec3(
            self.radius,
        );
    }
}

} // verus!
