//! Where the instructions and parameters of each part of a scene tree lie
//! in its command buffer.
//!
//! A part of a tree is named by the path to it from the root: one step for
//! each operator on the way, `false` into its left operand and `true` into
//! its right one.

use vstd::prelude::*;
use crate::command::{CSGCommandType, Command};
use crate::node::CSGNode;

verus! {

/// Number of parameter words that the first `upto` instructions of
/// `commands` read, going by their kinds.
pub open spec fn words_before(commands: Seq<Command>, upto: int) -> nat
    decreases upto,
{
    if upto <= 0 {
        0
    } else {
        words_before(commands, upto - 1) + commands[upto - 1].opcode.spec_param_words()
    }
}

/// The `len` elements of `s` that start at index `start`.
pub open spec fn window<T>(s: Seq<T>, start: nat, len: nat) -> Seq<T> {
    s.subrange(start as int, (start + len) as int)
}

impl CSGNode {
    /// The part of the tree at the end of `path`, if the path stays inside
    /// the tree.
    pub open spec fn subtree(self, path: Seq<bool>) -> Option<CSGNode>
        decreases path.len(),
    {
        if path.len() == 0 {
            Some(self)
        } else {
            match self.subtree(path.drop_last()) {
                Some(parent) => match parent.children() {
                    Some((left, right)) => Some(
                        if path.last() {
                            right
                        } else {
                            left
                        },
                    ),
                    None => None,
                },
                None => None,
            }
        }
    }

    /// Index, among the instructions of the tree, of the first instruction
    /// of the part at `path`.
    pub open spec fn first_instruction(self, path: Seq<bool>) -> nat
        decreases path.len(),
    {
        if path.len() == 0 {
            0
        } else {
            let start = self.first_instruction(path.drop_last());
            match self.subtree(path) {
                Some(_) if path.last() => {
                    let (left, _) = self.subtree(path.drop_last()).unwrap().children().unwrap();
                    start + left.instruction_count()
                },
                _ => start,
            }
        }
    }

    /// Index, among the parameter words of the tree, of the first word of
    /// the part at `path`.
    pub open spec fn first_param(self, path: Seq<bool>) -> nat
        decreases path.len(),
    {
        if path.len() == 0 {
            0
        } else {
            let start = self.first_param(path.drop_last());
            match self.subtree(path) {
                Some(_) if path.last() => {
                    let (left, _) = self.subtree(path.drop_last()).unwrap().children().unwrap();
                    start + left.param_words().len()
                },
                _ => start,
            }
        }
    }

    /// Index of the instruction that the root of the part at `path` itself
    /// contributes: the last one of the part.
    pub open spec fn own_instruction(self, path: Seq<bool>) -> int {
        self.first_instruction(path) + self.subtree(path).unwrap().instruction_count() - 1
    }

    /// A node has as many parameter words as the kinds of its instructions
    /// call for; a primitive has those of its own kind.
    pub proof fn lemma_param_words_len(self, base: nat)
        ensures
            self.param_words().len() == words_before(
                self.commands(base),
                self.instruction_count() as int,
            ),
            self.children() is None ==> self.param_words().len()
                == self.opcode().spec_param_words(),
        decreases self,
    {
        let commands = self.commands(base);
        self.lemma_commands_len(base);
        match self.children() {
            None => {
                assert(words_before(commands, 0) == 0);
                assert(commands[0].opcode == self.opcode());
            },
            Some((left, right)) => {
                let mid = base + left.param_words().len();
                left.lemma_param_words_len(base);
                right.lemma_param_words_len(mid);
                left.lemma_commands_len(base);
                right.lemma_commands_len(mid);
                let both = left.commands(base) + right.commands(mid);
                lemma_words_before_concat(
                    left.commands(base),
                    right.commands(mid),
                    both.len() as int,
                );
                assert(commands.drop_last() =~= both);
                lemma_words_before_prefix(both, commands, both.len() as int);
            },
        }
    }

    /// The instructions and the parameters of a part of a tree stand
    /// together in those of the tree, at the indices that
    /// `first_instruction` and `first_param` give, and are what the part
    /// encodes to by itself.
    pub proof fn lemma_subtree_is_contiguous(self, path: Seq<bool>, base: nat)
        requires
            self.subtree(path) is Some,
        ensures
            ({
                let part = self.subtree(path).unwrap();
                let first = self.first_instruction(path);
                let start = self.first_param(path);
                &&& first + part.instruction_count() <= self.instruction_count()
                &&& start + part.param_words().len() <= self.param_words().len()
                &&& window(self.commands(base), first, part.instruction_count())
                    == part.commands(base + start)
                &&& window(self.param_words(), start, part.param_words().len())
                    == part.param_words()
            }),
        decreases path.len(),
    {
        let part = self.subtree(path).unwrap();
        let first = self.first_instruction(path);
        let start = self.first_param(path);
        self.lemma_commands_len(base);
        if path.len() == 0 {
            assert(self.commands(base).subrange(0, self.instruction_count() as int)
                =~= self.commands(base));
            assert(self.param_words().subrange(0, self.param_words().len() as int)
                =~= self.param_words());
        } else {
            let up = path.drop_last();
            let parent = self.subtree(up).unwrap();
            let (left, right) = parent.children().unwrap();
            self.lemma_subtree_is_contiguous(up, base);
            let pfirst = self.first_instruction(up);
            let pstart = self.first_param(up);
            let pbase = base + pstart;
            let mid = pbase + left.param_words().len();
            parent.lemma_commands_len(pbase);
            left.lemma_commands_len(pbase);
            right.lemma_commands_len(mid);
            let pcommands = parent.commands(pbase);
            assert(pcommands =~= (left.commands(pbase) + right.commands(mid)).push(
                pcommands.last(),
            ));
            assert(parent.param_words() =~= left.param_words() + right.param_words());
            let whole = window(self.commands(base), pfirst, parent.instruction_count());
            let words = window(self.param_words(), pstart, parent.param_words().len());
            if path.last() {
                assert(window(self.commands(base), first, part.instruction_count()) =~= window(
                    whole,
                    left.instruction_count(),
                    right.instruction_count(),
                ));
                assert(window(pcommands, left.instruction_count(), right.instruction_count())
                    =~= right.commands(mid));
                assert(window(self.param_words(), start, part.param_words().len()) =~= window(
                    words,
                    left.param_words().len(),
                    right.param_words().len(),
                ));
                assert(window(
                    parent.param_words(),
                    left.param_words().len(),
                    right.param_words().len(),
                ) =~= right.param_words());
            } else {
                assert(window(self.commands(base), first, part.instruction_count()) =~= window(
                    whole,
                    0,
                    left.instruction_count(),
                ));
                assert(window(pcommands, 0, left.instruction_count()) =~= left.commands(pbase));
                assert(window(self.param_words(), start, part.param_words().len()) =~= window(
                    words,
                    0,
                    left.param_words().len(),
                ));
                assert(window(parent.param_words(), 0, left.param_words().len())
                    =~= left.param_words());
            }
        }
    }

    /// Post-order: the instruction of an operator comes after every
    /// instruction of its left operand and every instruction of its right
    /// operand. The instructions of the left operand come first, those of
    /// the right operand follow them, and the operator's own instruction
    /// follows directly after the last of these.
    pub proof fn lemma_post_order(self, path: Seq<bool>, base: nat)
        requires
            self.subtree(path) is Some,
            self.subtree(path).unwrap().children() is Some,
        ensures
            ({
                let operator = self.subtree(path).unwrap();
                let (left, right) = operator.children().unwrap();
                let first = self.first_instruction(path);
                let own = self.own_instruction(path);
                &&& self.subtree(path.push(false)) == Some(left)
                &&& self.subtree(path.push(true)) == Some(right)
                &&& self.first_instruction(path.push(false)) == first
                &&& self.first_instruction(path.push(true)) == first + left.instruction_count()
                &&& own == first + left.instruction_count() + right.instruction_count()
                &&& first <= self.own_instruction(path.push(false)) < self.first_instruction(
                    path.push(true),
                )
                &&& self.own_instruction(path.push(true)) == own - 1
                &&& own < self.instruction_count()
                &&& self.commands(base)[own].opcode == operator.opcode()
                &&& window(self.commands(base), first, left.instruction_count())
                    == left.commands(base + self.first_param(path))
                &&& window(
                    self.commands(base),
                    first + left.instruction_count(),
                    right.instruction_count(),
                ) == right.commands(base + self.first_param(path.push(true)))
            }),
    {
        let operator = self.subtree(path).unwrap();
        let (left, right) = operator.children().unwrap();
        let to_left = path.push(false);
        let to_right = path.push(true);
        assert(to_left.drop_last() =~= path);
        assert(to_right.drop_last() =~= path);
        left.lemma_commands_len(0);
        right.lemma_commands_len(0);
        self.lemma_subtree_is_contiguous(path, base);
        self.lemma_subtree_is_contiguous(to_left, base);
        self.lemma_subtree_is_contiguous(to_right, base);
        let first = self.first_instruction(path);
        let own = self.own_instruction(path);
        let start = self.first_param(path);
        self.lemma_commands_len(base);
        operator.lemma_commands_len(base + start);
        let part = window(self.commands(base), first, operator.instruction_count());
        assert(part[operator.instruction_count() - 1] == self.commands(base)[own]);
    }

    /// Parameter offsets: each instruction of a tree carries as its offset
    /// the number of parameter words that the instructions before it read,
    /// counted from the word at which the parameters of the tree start.
    pub proof fn lemma_parameter_offsets(self, base: nat, index: int)
        requires
            0 <= index < self.instruction_count(),
            base + self.param_words().len() <= u32::MAX,
        ensures
            self.commands(base)[index].parameter_offset == base + words_before(
                self.commands(base),
                index,
            ),
        decreases self,
    {
        let commands = self.commands(base);
        self.lemma_commands_len(base);
        match self.children() {
            None => {
                assert(words_before(commands, 0) == 0);
            },
            Some((left, right)) => {
                let mid = base + left.param_words().len();
                let lcommands = left.commands(base);
                let rcommands = right.commands(mid);
                left.lemma_commands_len(base);
                right.lemma_commands_len(mid);
                left.lemma_param_words_len(base);
                right.lemma_param_words_len(mid);
                let both = lcommands + rcommands;
                assert(commands.drop_last() =~= both);
                lemma_words_before_prefix(both, commands, index);
                lemma_words_before_concat(lcommands, rcommands, index);
                if index < lcommands.len() {
                    left.lemma_parameter_offsets(base, index);
                } else if index < both.len() {
                    right.lemma_parameter_offsets(mid, index - lcommands.len());
                }
            },
        }
    }

    /// Reading back: the instruction of a primitive points at the words
    /// that the primitive was made of. At its offset the parameter array
    /// holds as many words as the kind of the primitive calls for, the
    /// center first.
    pub proof fn lemma_parameters_read_back(self, path: Seq<bool>, base: nat)
        requires
            self.subtree(path) is Some,
            self.subtree(path).unwrap().children() is None,
            base + self.param_words().len() <= u32::MAX,
        ensures
            ({
                let primitive = self.subtree(path).unwrap();
                let command = self.commands(base)[self.own_instruction(path)];
                let offset = command.parameter_offset - base;
                &&& command.opcode == primitive.opcode()
                &&& offset == self.first_param(path)
                &&& offset + command.opcode.spec_param_words() <= self.param_words().len()
                &&& window(
                    self.param_words(),
                    offset as nat,
                    command.opcode.spec_param_words(),
                ) == primitive.param_words()
            }),
    {
        let primitive = self.subtree(path).unwrap();
        self.lemma_subtree_is_contiguous(path, base);
        self.lemma_commands_len(base);
        primitive.lemma_param_words_len(0);
        assert(primitive.instruction_count() == 1);
        let first = self.first_instruction(path);
        let part = window(self.commands(base), first, 1);
        assert(part[0] == self.commands(base)[first as int]);
    }
}

/// The count over a stream that starts with `prefix` is, inside the
/// prefix, the count over the prefix.
pub proof fn lemma_words_before_prefix(prefix: Seq<Command>, commands: Seq<Command>, upto: int)
    requires
        prefix.len() <= commands.len(),
        commands.take(prefix.len() as int) == prefix,
        upto <= prefix.len(),
    ensures
        words_before(commands, upto) == words_before(prefix, upto),
    decreases upto,
{
    if upto > 0 {
        lemma_words_before_prefix(prefix, commands, upto - 1);
        assert(commands.take(prefix.len() as int)[upto - 1] == commands[upto - 1]);
    }
}

/// The count over two streams put together is the count over the first
/// and, behind its end, the count over the second added to it.
pub proof fn lemma_words_before_concat(first: Seq<Command>, second: Seq<Command>, upto: int)
    requires
        upto <= first.len() + second.len(),
    ensures
        words_before(first + second, upto) == if upto <= first.len() {
            words_before(first, upto)
        } else {
            words_before(first, first.len() as int) + words_before(second, upto - first.len())
        },
    decreases upto,
{
    if upto > 0 {
        lemma_words_before_concat(first, second, upto - 1);
        if upto > first.len() {
            assert((first + second)[upto - 1] == second[upto - 1 - first.len()]);
            assert(words_before(second, 0) == 0);
        } else {
            assert((first + second)[upto - 1] == first[upto - 1]);
        }
    }
}

} // verus!
