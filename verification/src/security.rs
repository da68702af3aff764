//! A check of instructions for writes that may overflow their target.
use vstd::prelude::*;
use vstd::string::*;
use crate::ir::{Instruction, Operand, SpecInstr, SpecOperand, instrs_view};
use crate::text::{nat_text, int_text, str_debug, debug_quoted, push_nat, push_int};
use crate::ast::strings_view;

verus! {

/// The text that `{:?}` prints for an operand.
pub open spec fn operand_debug(o: SpecOperand) -> Seq<char> {
    match o {
        SpecOperand::Register(r) => "Register("@ + nat_text(r as nat) + ")"@,
        SpecOperand::Immediate(i) => "Immediate("@ + int_text(i as int) + ")"@,
        SpecOperand::Label(l) => "Label("@ + str_debug(l) + ")"@,
    }
}

/// The warning for a store to `dest`.
pub open spec fn overflow_msg(dest: SpecOperand) -> Seq<char> {
    "potential buffer overflow at "@ + operand_debug(dest)
}

/// The warnings for `iv[i..]`: one for each store, naming its destination.
pub open spec fn store_warnings(iv: Seq<SpecInstr>, i: int) -> Seq<Seq<char>>
    decreases iv.len() - i,
{
    if 0 <= i < iv.len() {
        match iv[i] {
            SpecInstr::Store(dest, _) => seq![overflow_msg(dest)] + store_warnings(iv, i + 1),
            _ => store_warnings(iv, i + 1),
        }
    } else {
        Seq::empty()
    }
}

/// The number of stores in `iv[i..]`.
pub open spec fn store_count(iv: Seq<SpecInstr>, i: int) -> nat
    decreases iv.len() - i,
{
    if 0 <= i < iv.len() {
        (if iv[i] is Store { 1nat } else { 0nat }) + store_count(iv, i + 1)
    } else {
        0
    }
}

impl Operand {
    /// The text that `{:?}` prints for this operand.
    pub fn debug_text(&self) -> (r: String)
        ensures
            r@ == operand_debug(self@),
    {
        match self {
            Operand::Register(reg) => {
                let mut s = String::from_str("Register(");
                push_nat(&mut s, *reg as u64);
                s.append(")");
                s
            },
            Operand::Immediate(i) => {
                let mut s = String::from_str("Immediate(");
                push_int(&mut s, *i);
                s.append(")");
                s
            },
            Operand::Label(l) => {
                let mut s = String::from_str("Label(");
                let q = debug_quoted(l.as_str());
                s.append(q.as_str());
                s.append(")");
                s
            },
        }
    }
}

/// Collects warnings about instructions.
pub struct SecurityAnalyzer {
    errors: Vec<String>,
}

impl SecurityAnalyzer {
    /// The warnings so far.
    pub closed spec fn error_texts(&self) -> Seq<Seq<char>> {
        strings_view(self.errors@)
    }

    /// An analyzer with no warnings.
    pub fn new() -> (a: SecurityAnalyzer)
        ensures
            a.error_texts() == Seq::<Seq<char>>::empty(),
    {
        let a = SecurityAnalyzer { errors: Vec::new() };
        assert(a.error_texts() =~= Seq::<Seq<char>>::empty());
        a
    }

    /// The warnings so far.
    pub fn errors(&self) -> (r: &[String])
        ensures
            strings_view(r@) == self.error_texts(),
    {
        self.errors.as_slice()
    }

    /// Records a warning for every store in `instructions`, in order.
    pub fn analyze(&mut self, instructions: &[Instruction])
        ensures
            final(self).error_texts() == old(self).error_texts() + store_warnings(instrs_view(instructions@), 0),
    {
        let ghost iv = instrs_view(instructions@);
        let ghost e0 = self.error_texts();
        let mut i: usize = 0;
        assert(e0 + Seq::<Seq<char>>::empty() =~= e0);
        while i < instructions.len()
            invariant
                i <= instructions@.len(),
                iv == instrs_view(instructions@),
                self.error_texts() + store_warnings(iv, i as int) == e0 + store_warnings(iv, 0),
            decreases instructions@.len() - i,
        {
            let ghost before = self.error_texts();
            assert(iv[i as int] == instructions@[i as int]@);
            match &instructions[i] {
                Instruction::Store(dest, _) => {
                    let mut msg = String::from_str("potential buffer overflow at ");
                    let d = dest.debug_text();
                    msg.append(d.as_str());
                    self.errors.push(msg);
                    assert(self.error_texts() =~= before.push(msg@));
                },
                _ => {},
            }
            i = i + 1;
            assert(before + store_warnings(iv, i - 1) =~= self.error_texts() + store_warnings(iv, i as int));
        }
        assert(self.error_texts() + store_warnings(iv, i as int) =~= self.error_texts());
    }
}

/// There is one warning for each store.
pub proof fn law_one_warning_per_store(iv: Seq<SpecInstr>, i: int)
    requires
        0 <= i <= iv.len(),
    ensures
        store_warnings(iv, i).len() == store_count(iv, i),
    decreases iv.len() - i,
{
    if i < iv.len() {
        law_one_warning_per_store(iv, i + 1);
    }
}

} // verus!
