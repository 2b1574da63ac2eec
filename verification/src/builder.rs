//! The encoder that accumulates instructions and their parameters.

use vstd::prelude::*;
use crate::command::{CSGCommandType, Command};

verus! {

/// The wire codes of a sequence of instructions, one word each.
pub open spec fn opcode_words(commands: Seq<Command>) -> Seq<u32> {
    Seq::new(commands.len(), |i: int| commands[i].opcode.spec_code())
}

/// What an upload buffer holds for a sequence of words: the words
/// themselves, or a single zero word where there are none, since a buffer on
/// the device may not be empty.
pub open spec fn padded(words: Seq<u32>) -> Seq<u32> {
    if words.len() == 0 {
        seq![0u32]
    } else {
        words
    }
}

/// Accumulates an instruction stream and the parameter words it refers to.
///
/// Instructions and parameters live in two parallel arrays. Neither ever
/// holds more than `u32::MAX` elements, so that counts and offsets fit the
/// 32-bit words of the device.
pub struct CSGCommandBufferBuilder {
    commands: Vec<Command>,
    params: Vec<u32>,
}

impl CSGCommandBufferBuilder {
    #[verifier::type_invariant]
    spec fn fits(self) -> bool {
        &&& self.commands@.len() <= u32::MAX
        &&& self.params@.len() <= u32::MAX
    }

    /// The instructions pushed so far, oldest first.
    pub closed spec fn instructions(self) -> Seq<Command> {
        self.commands@
    }

    /// The parameter words pushed so far, oldest first.
    pub closed spec fn parameters(self) -> Seq<u32> {
        self.params@
    }

    pub fn new() -> (builder: Self)
        ensures
            builder.instructions() == Seq::<Command>::empty(),
            builder.parameters() == Seq::<u32>::empty(),
    {
        Self { commands: Vec::new(), params: Vec::new() }
    }

    /// Appends one instruction. Its parameter offset is the number of
    /// parameter words pushed so far, so its parameters must be pushed after
    /// it and before the next instruction.
    pub fn push_command(&mut self, cmd_type: CSGCommandType) -> (builder: &mut Self)
        requires
            old(self).instructions().len() < u32::MAX,
        ensures
            builder.instructions() == old(self).instructions().push(
                Command { opcode: cmd_type, parameter_offset: old(self).parameters().len() as u32 },
            ),
            builder.parameters() == old(self).parameters(),
            *final(self) == *final(builder),
    {
        proof {
            use_type_invariant(&*self);
        }
        let parameter_offset: u32 = self.params.len() as u32;
        let mut commands: Vec<Command> = Vec::new();
        std::mem::swap(&mut commands, &mut self.commands);
        commands.push(Command { opcode: cmd_type, parameter_offset });
        self.commands = commands;
        self
    }

    /// Appends the three words of a vector parameter, in order. Each word is
    /// the bit pattern of a 32-bit IEEE-754 number.
    pub fn push_param_vec3(&mut self, value: [u32; 3]) -> (builder: &mut Self)
        requires
            old(self).parameters().len() + 3 <= u32::MAX,
        ensures
            builder.instructions() == old(self).instructions(),
            builder.parameters() == old(self).parameters() + value@,
            *final(self) == *final(builder),
    {
        proof {
            use_type_invariant(&*self);
        }
        let mut params: Vec<u32> = Vec::new();
        std::mem::swap(&mut params, &mut self.params);
        params.push(value[0]);
        params.push(value[1]);
        params.push(value[2]);
        assert(params@ =~= old(self).params@ + value@);
        self.params = params;
        self
    }

    /// Appends the word of a scalar parameter: the bit pattern of a 32-bit
    /// IEEE-754 number.
    pub fn push_param_float(&mut self, value: u32) -> (builder: &mut Self)
        requires
            old(self).parameters().len() < u32::MAX,
        ensures
            builder.instructions() == old(self).instructions(),
            builder.parameters() == old(self).parameters().push(value),
            *final(self) == *final(builder),
    {
        proof {
            use_type_invariant(&*self);
        }
        let mut params: Vec<u32> = Vec::new();
        std::mem::swap(&mut params, &mut self.params);
        params.push(value);
        self.params = params;
        self
    }

    /// Number of instructions pushed so far.
    pub fn cmd_count(&self) -> (count: u32)
        ensures
            count == self.instructions().len(),
    {
        proof {
            use_type_invariant(self);
        }
        self.commands.len() as u32
    }

    /// Number of parameter words pushed so far.
    pub fn param_count(&self) -> (count: u32)
        ensures
            count == self.parameters().len(),
    {
        proof {
            use_type_invariant(self);
        }
        self.params.len() as u32
    }

    /// The instructions pushed so far.
    pub fn commands(&self) -> (commands: &Vec<Command>)
        ensures
            commands@ == self.instructions(),
    {
        &self.commands
    }

    /// The parameter words pushed so far.
    pub fn params(&self) -> (params: &Vec<u32>)
        ensures
            params@ == self.parameters(),
    {
        &self.params
    }

    /// Finishes the buffer: the number of instructions, then the contents of
    /// the two upload buffers, the opcode of each instruction and the
    /// parameter words. The count is handed out on its own because the
    /// buffers carry no length, and an empty array comes out as one zero
    /// word.
    pub fn build(self) -> (built: (u32, Vec<u32>, Vec<u32>))
        ensures
            built.0 == self.instructions().len(),
            built.1@ == padded(opcode_words(self.instructions())),
            built.2@ == padded(self.parameters()),
    {
        proof {
            use_type_invariant(&self);
        }
        let count: u32 = self.commands.len() as u32;
        let mut opcodes: Vec<u32> = Vec::new();
        let mut i: usize = 0;
        while i < self.commands.len()
            invariant
                i <= self.commands@.len(),
                opcodes@ == opcode_words(self.commands@.take(i as int)),
            decreases self.commands@.len() - i,
        {
            opcodes.push(self.commands[i].opcode.code());
            i += 1;
            assert(opcodes@ =~= opcode_words(self.commands@.take(i as int)));
        }
        assert(self.commands@.take(i as int) =~= self.commands@);
        if opcodes.len() == 0 {
            opcodes.push(0);
        }
        let mut params: Vec<u32> = self.params;
        if params.len() == 0 {
            params.push(0);
        }
        assert(opcodes@ =~= padded(opcode_words(self.instructions())));
        assert(params@ =~= padded(self.parameters()));
        (count, opcodes, params)
    }
}

} // verus!
