//! Reordering of instructions to obscure a program's structure.
use vstd::prelude::*;
use rand::seq::SliceRandom;
use crate::ir::{Instruction, SpecInstr, instrs_view};

verus! {

/// Shuffles `items` in place with `rand`'s `SliceRandom::shuffle` driven by
/// `rand::thread_rng()`. That shuffle only swaps elements, so the result holds
/// the same instructions and is as long; which order comes out depends on the
/// random source and is not stated. (`thread_rng` fails only when the
/// system's random source cannot be opened, whatever the input.)
#[verifier::external_body]
fn shuffle_instructions(items: &mut [Instruction])
    ensures
        final(items)@.len() == old(items)@.len(),
        final(items)@.to_multiset() == old(items)@.to_multiset(),
{
    items.shuffle(&mut rand::thread_rng());
}

/// Holds the instructions of the last obfuscation.
pub struct Obfuscator {
    instructions: Vec<Instruction>,
}

impl Obfuscator {
    /// The instructions of the last obfuscation.
    pub closed spec fn instrs(&self) -> Seq<SpecInstr> {
        instrs_view(self.instructions@)
    }

    /// An obfuscator holding no instructions.
    pub fn new() -> (o: Obfuscator)
        ensures
            o.instrs() == Seq::<SpecInstr>::empty(),
    {
        let o = Obfuscator { instructions: Vec::new() };
        assert(o.instrs() =~= Seq::<SpecInstr>::empty());
        o
    }

    /// The instructions of the last obfuscation.
    pub fn instructions(&self) -> (r: &[Instruction])
        ensures
            instrs_view(r@) == self.instrs(),
    {
        self.instructions.as_slice()
    }

    /// Shuffles `instructions` in place and keeps a copy of the result.
    pub fn obfuscate(&mut self, instructions: &mut [Instruction])
        ensures
            final(instructions)@.len() == old(instructions)@.len(),
            final(instructions)@.to_multiset() == old(instructions)@.to_multiset(),
            final(self).instrs() == instrs_view(final(instructions)@),
    {
        shuffle_instructions(instructions);
        let mut copy: Vec<Instruction> = Vec::new();
        let mut i: usize = 0;
        while i < instructions.len()
            invariant
                i <= instructions@.len(),
                instrs_view(copy@) == instrs_view(instructions@).take(i as int),
            decreases instructions@.len() - i,
        {
            let ghost prev = copy@;
            copy.push(instructions[i].duplicate());
            assert(instrs_view(copy@) =~= instrs_view(prev).push(instructions@[i as int]@));
            i = i + 1;
            assert(instrs_view(copy@) =~= instrs_view(instructions@).take(i as int));
        }
        assert(instrs_view(instructions@).take(i as int) =~= instrs_view(instructions@));
        self.instructions = copy;
    }
}

} // verus!
