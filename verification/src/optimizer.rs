//! A peephole pass that folds additions of two loaded constants.
use vstd::prelude::*;
use crate::ir::{Instruction, Operand, SpecInstr, SpecOperand, instrs_view};

verus! {

/// The constant an instruction loads, if it loads an immediate.
pub open spec fn imm_value(i: SpecInstr) -> Option<i64> {
    match i {
        SpecInstr::Load(_, SpecOperand::Immediate(v)) => Some(v),
        _ => None,
    }
}

/// Whether the addition at position `i` is folded: it is an `Add` with two
/// instructions before it that both load immediates.
pub open spec fn folds_at(instrs: Seq<SpecInstr>, i: int) -> bool {
    &&& 1 < i < instrs.len()
    &&& instrs[i] is Add
    &&& imm_value(instrs[i - 2]) is Some
    &&& imm_value(instrs[i - 1]) is Some
}

/// The sum that a folded addition at `i` loads.
pub open spec fn folded_sum(instrs: Seq<SpecInstr>, i: int) -> int {
    imm_value(instrs[i - 2])->0 + imm_value(instrs[i - 1])->0
}

/// Every folded sum fits in an `i64`.
pub open spec fn sums_fit(instrs: Seq<SpecInstr>) -> bool {
    forall|i: int| folds_at(instrs, i) ==> i64::MIN <= #[trigger] folded_sum(instrs, i) <= i64::MAX
}

/// `s` without its last element (unchanged when empty).
pub open spec fn pop_last(s: Seq<SpecInstr>) -> Seq<SpecInstr> {
    if s.len() > 0 {
        s.drop_last()
    } else {
        s
    }
}

/// The output after the first `k` instructions: each instruction is copied,
/// except that a folded addition removes the last two outputs and loads the
/// sum into its destination instead.
pub open spec fn optimized_prefix(instrs: Seq<SpecInstr>, k: int) -> Seq<SpecInstr>
    decreases k,
{
    if k <= 0 {
        Seq::empty()
    } else {
        let acc = optimized_prefix(instrs, k - 1);
        let i = k - 1;
        if folds_at(instrs, i) {
            pop_last(pop_last(acc)).push(
                SpecInstr::Load(instrs[i]->Add_0, SpecOperand::Immediate(folded_sum(instrs, i) as i64)),
            )
        } else {
            acc.push(instrs[i])
        }
    }
}

/// The optimized form of a whole instruction sequence.
pub open spec fn optimized(instrs: Seq<SpecInstr>) -> Seq<SpecInstr> {
    optimized_prefix(instrs, instrs.len() as int)
}

/// Holds the result of the last optimization pass.
pub struct Optimizer {
    instructions: Vec<Instruction>,
}

impl Optimizer {
    /// The instructions of the last pass.
    pub closed spec fn instrs(&self) -> Seq<SpecInstr> {
        instrs_view(self.instructions@)
    }

    /// An optimizer holding no instructions.
    pub fn new() -> (o: Optimizer)
        ensures
            o.instrs() == Seq::<SpecInstr>::empty(),
    {
        let o = Optimizer { instructions: Vec::new() };
        assert(o.instrs() =~= Seq::<SpecInstr>::empty());
        o
    }

    /// The instructions of the last pass.
    pub fn instructions(&self) -> (r: &[Instruction])
        ensures
            instrs_view(r@) == self.instrs(),
    {
        self.instructions.as_slice()
    }

    /// Optimizes `instructions`, keeping the result.
    pub fn optimize(&mut self, instructions: &[Instruction])
        requires
            sums_fit(instrs_view(instructions@)),
        ensures
            final(self).instrs() == optimized(instrs_view(instructions@)),
    {
        let ghost iv = instrs_view(instructions@);
        let mut new_instructions: Vec<Instruction> = Vec::new();
        let mut i: usize = 0;
        assert(instrs_view(new_instructions@) =~= optimized_prefix(iv, 0));
        while i < instructions.len()
            invariant
                i <= instructions@.len(),
                iv == instrs_view(instructions@),
                sums_fit(iv),
                instrs_view(new_instructions@) == optimized_prefix(iv, i as int),
            decreases instructions@.len() - i,
        {
            let ghost acc = instrs_view(new_instructions@);
            let instruction = &instructions[i];
            assert(iv[i as int] == instruction@);
            match instruction {
                Instruction::Add(dest, _src1, _src2) => {
                    if i > 1 {
                        let a = self.is_immediate(&instructions[i - 2]);
                        let b = self.is_immediate(&instructions[i - 1]);
                        match (a, b) {
                            (Some(i1), Some(i2)) => {
                                assert(folds_at(iv, i as int));
                                assert(i64::MIN <= folded_sum(iv, i as int) <= i64::MAX);
                                new_instructions.pop();
                                new_instructions.pop();
                                new_instructions.push(Instruction::Load(dest.duplicate(), Operand::Immediate(i1 + i2)));
                                assert(instrs_view(new_instructions@) =~= optimized_prefix(iv, i + 1));
                            },
                            _ => {
                                new_instructions.push(instruction.duplicate());
                                assert(instrs_view(new_instructions@) =~= optimized_prefix(iv, i + 1));
                            },
                        }
                    } else {
                        new_instructions.push(instruction.duplicate());
                        assert(instrs_view(new_instructions@) =~= optimized_prefix(iv, i + 1));
                    }
                },
                _ => {
                    new_instructions.push(instruction.duplicate());
                    assert(instrs_view(new_instructions@) =~= optimized_prefix(iv, i + 1));
                },
            }
            i = i + 1;
        }
        self.instructions = new_instructions;
    }

    /// Whether `optimize` can take `instructions`: every folded sum fits in
    /// an `i64`.
    pub fn can_optimize(&self, instructions: &[Instruction]) -> (r: bool)
        ensures
            r == sums_fit(instrs_view(instructions@)),
    {
        let ghost iv = instrs_view(instructions@);
        let mut i: usize = 0;
        while i < instructions.len()
            invariant
                i <= instructions@.len(),
                iv == instrs_view(instructions@),
                forall|j: int| 0 <= j < i && folds_at(iv, j) ==> i64::MIN <= #[trigger] folded_sum(iv, j) <= i64::MAX,
            decreases instructions@.len() - i,
        {
            assert(iv[i as int] == instructions@[i as int]@);
            if i > 1 {
                if let Instruction::Add(_, _, _) = &instructions[i] {
                    let a = self.is_immediate(&instructions[i - 2]);
                    let b = self.is_immediate(&instructions[i - 1]);
                    if let (Some(x), Some(y)) = (a, b) {
                        assert(folds_at(iv, i as int));
                        if x.checked_add(y).is_none() {
                            assert(!(i64::MIN <= folded_sum(iv, i as int) <= i64::MAX));
                            return false;
                        }
                    }
                }
            }
            i = i + 1;
        }
        true
    }

    fn is_immediate(&self, instruction: &Instruction) -> (r: Option<i64>)
        ensures
            r == imm_value(instruction@),
    {
        if let Instruction::Load(_, Operand::Immediate(i)) = instruction {
            Some(*i)
        } else {
            None
        }
    }
}

/// The output for a prefix is never longer than the prefix.
pub proof fn law_prefix_never_longer(instrs: Seq<SpecInstr>, k: int)
    requires
        0 <= k,
    ensures
        optimized_prefix(instrs, k).len() <= k,
    decreases k,
{
    if k > 0 {
        law_prefix_never_longer(instrs, k - 1);
    }
}

/// Optimizing never makes a program longer.
pub proof fn law_optimize_never_longer(instrs: Seq<SpecInstr>)
    ensures
        optimized(instrs).len() <= instrs.len(),
{
    law_prefix_never_longer(instrs, instrs.len() as int);
}

/// Where no addition can be folded, optimizing changes nothing.
pub proof fn law_optimize_identity(instrs: Seq<SpecInstr>)
    requires
        forall|i: int| !#[trigger] folds_at(instrs, i),
    ensures
        optimized(instrs) == instrs,
{
    assert forall|k: int| 0 <= k <= instrs.len() implies #[trigger] optimized_prefix(instrs, k) == instrs.take(k) by {
        lemma_prefix_identity(instrs, k);
    }
    assert(instrs.take(instrs.len() as int) =~= instrs);
}

proof fn lemma_prefix_identity(instrs: Seq<SpecInstr>, k: int)
    requires
        forall|i: int| !#[trigger] folds_at(instrs, i),
        0 <= k <= instrs.len(),
    ensures
        optimized_prefix(instrs, k) == instrs.take(k),
    decreases k,
{
    if k > 0 {
        lemma_prefix_identity(instrs, k - 1);
        assert(!folds_at(instrs, k - 1));
        assert(instrs.take(k - 1).push(instrs[k - 1]) =~= instrs.take(k));
    } else {
        assert(instrs.take(0) =~= Seq::<SpecInstr>::empty());
    }
}

/// Where an addition follows two loads of constants `x` and `y`, the
/// instruction put in its place loads `x + y` into the addition's
/// destination (the two loads themselves are dropped).
pub proof fn law_fold_loads_the_sum(
    instrs: Seq<SpecInstr>,
    i: int,
    r1: SpecOperand,
    x: i64,
    r2: SpecOperand,
    y: i64,
    dest: SpecOperand,
    a: SpecOperand,
    b: SpecOperand,
)
    requires
        2 <= i < instrs.len(),
        instrs[i - 2] == SpecInstr::Load(r1, SpecOperand::Immediate(x)),
        instrs[i - 1] == SpecInstr::Load(r2, SpecOperand::Immediate(y)),
        instrs[i] == SpecInstr::Add(dest, a, b),
        i64::MIN <= x + y <= i64::MAX,
    ensures
        optimized_prefix(instrs, i + 1).len() >= 1,
        optimized_prefix(instrs, i + 1).last() == SpecInstr::Load(dest, SpecOperand::Immediate((x + y) as i64)),
{
    assert(folds_at(instrs, i));
}

/// Two loads of constants followed by their addition optimize to a single
/// load of the sum into the addition's destination.
pub proof fn law_fold_program(r1: SpecOperand, x: i64, r2: SpecOperand, y: i64, dest: SpecOperand, a: SpecOperand, b: SpecOperand)
    requires
        i64::MIN <= x + y <= i64::MAX,
    ensures
        optimized(
            seq![
                SpecInstr::Load(r1, SpecOperand::Immediate(x)),
                SpecInstr::Load(r2, SpecOperand::Immediate(y)),
                SpecInstr::Add(dest, a, b),
            ],
        ) == seq![SpecInstr::Load(dest, SpecOperand::Immediate((x + y) as i64))],
{
    let instrs = seq![
        SpecInstr::Load(r1, SpecOperand::Immediate(x)),
        SpecInstr::Load(r2, SpecOperand::Immediate(y)),
        SpecInstr::Add(dest, a, b),
    ];
    assert(!folds_at(instrs, 0));
    assert(!folds_at(instrs, 1));
    assert(folds_at(instrs, 2));
    assert(optimized_prefix(instrs, 0) =~= Seq::<SpecInstr>::empty());
    assert(optimized_prefix(instrs, 1) =~= seq![instrs[0]]);
    assert(optimized_prefix(instrs, 2) =~= seq![instrs[0], instrs[1]]);
    assert(pop_last(pop_last(optimized_prefix(instrs, 2))) =~= Seq::<SpecInstr>::empty());
    assert(optimized_prefix(instrs, 3) =~= seq![SpecInstr::Load(dest, SpecOperand::Immediate((x + y) as i64))]);
}

} // verus!
