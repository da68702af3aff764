//! Assembly text generation from instructions.
use vstd::prelude::*;
use vstd::string::*;
use vstd::hash_set::HashSetWithView;
use crate::ir::{Instruction, Operand, SpecInstr, SpecOperand, instrs_view, operands_view};
use crate::text::{nat_text, int_text, push_char, push_nat};

verus! {

broadcast use vstd::std_specs::hash::group_hash_axioms;

/// A line of assembly: the text and a newline.
pub open spec fn line(s: Seq<char>) -> Seq<char> {
    s.push('\n')
}

/// The assembly name of register `r`.
pub open spec fn reg_text(r: u8) -> Seq<char> {
    "r"@ + nat_text(r as nat)
}

/// Whether an operand is a register.
pub open spec fn is_reg(o: SpecOperand) -> bool {
    o is Register
}

/// Whether an operand is a value: an immediate or a label.
pub open spec fn is_val(o: SpecOperand) -> bool {
    o is Immediate || o is Label
}

/// The assembly text of a register operand.
pub open spec fn reg_operand_text(o: SpecOperand) -> Seq<char> {
    match o {
        SpecOperand::Register(r) => reg_text(r),
        _ => Seq::empty(),
    }
}

/// The assembly text of a value operand: an immediate in decimal, a label as
/// written.
pub open spec fn val_text(o: SpecOperand) -> Seq<char> {
    match o {
        SpecOperand::Immediate(i) => int_text(i as int),
        SpecOperand::Label(l) => l,
        _ => Seq::empty(),
    }
}

/// Whether every operand of `args[i..]` is a register.
pub open spec fn all_regs(args: Seq<SpecOperand>, i: int) -> bool
    decreases args.len() - i,
{
    if 0 <= i < args.len() {
        is_reg(args[i]) && all_regs(args, i + 1)
    } else {
        true
    }
}

/// Whether an instruction can be turned into assembly: loads into a register
/// from a value, additions and returns of registers, and calls of a value with
/// register arguments. Stores cannot.
pub open spec fn emittable(i: SpecInstr) -> bool {
    match i {
        SpecInstr::Load(d, s) => is_reg(d) && is_val(s),
        SpecInstr::Add(d, a, b) => is_reg(d) && is_reg(a) && is_reg(b),
        SpecInstr::Ret(r) => is_reg(r),
        SpecInstr::Call(f, args) => is_val(f) && all_regs(args, 0),
        SpecInstr::Store(_, _) => false,
    }
}

/// Whether every instruction of `iv[i..]` can be turned into assembly.
pub open spec fn all_emittable(iv: Seq<SpecInstr>, i: int) -> bool
    decreases iv.len() - i,
{
    if 0 <= i < iv.len() {
        emittable(iv[i]) && all_emittable(iv, i + 1)
    } else {
        true
    }
}

/// The argument moves of a call: argument `k` goes to `rdi<k>`.
pub open spec fn args_text(args: Seq<SpecOperand>, i: int) -> Seq<char>
    decreases args.len() - i,
{
    if 0 <= i < args.len() {
        line("mov rdi"@ + nat_text(i as nat) + ", "@ + reg_operand_text(args[i])) + args_text(args, i + 1)
    } else {
        Seq::empty()
    }
}

/// The assembly of one instruction.
pub open spec fn instr_text(i: SpecInstr) -> Seq<char> {
    match i {
        SpecInstr::Load(d, s) => line("mov "@ + reg_operand_text(d) + ", "@ + val_text(s)),
        SpecInstr::Add(d, a, b) => line("mov "@ + reg_operand_text(d) + ", "@ + reg_operand_text(a))
            + line("add "@ + reg_operand_text(d) + ", "@ + reg_operand_text(b)),
        SpecInstr::Ret(r) => line("mov rax, "@ + reg_operand_text(r)) + line("ret"@),
        SpecInstr::Call(f, args) => args_text(args, 0) + line("call "@ + val_text(f)),
        SpecInstr::Store(_, _) => Seq::empty(),
    }
}

/// The assembly of the instructions `iv[i..]`.
pub open spec fn instrs_text(iv: Seq<SpecInstr>, i: int) -> Seq<char>
    decreases iv.len() - i,
{
    if 0 <= i < iv.len() {
        instr_text(iv[i]) + instrs_text(iv, i + 1)
    } else {
        Seq::empty()
    }
}

/// The registers of a sequence of operands from position `i`.
pub open spec fn operand_regs(args: Seq<SpecOperand>, i: int) -> Set<u8>
    decreases args.len() - i,
{
    if 0 <= i < args.len() {
        let rest = operand_regs(args, i + 1);
        match args[i] {
            SpecOperand::Register(r) => rest.insert(r),
            _ => rest,
        }
    } else {
        Set::empty()
    }
}

/// The register of an operand, as a set (empty for other operands).
pub open spec fn reg_set(o: SpecOperand) -> Set<u8> {
    match o {
        SpecOperand::Register(r) => set![r],
        _ => Set::empty(),
    }
}

/// The registers an instruction's assembly names.
pub open spec fn instr_regs(i: SpecInstr) -> Set<u8> {
    match i {
        SpecInstr::Load(d, _) => reg_set(d),
        SpecInstr::Add(d, a, b) => reg_set(d).union(reg_set(a)).union(reg_set(b)),
        SpecInstr::Ret(r) => reg_set(r),
        SpecInstr::Call(_, args) => operand_regs(args, 0),
        SpecInstr::Store(_, _) => Set::empty(),
    }
}

/// The registers the assembly of `iv[i..]` names.
pub open spec fn instrs_regs(iv: Seq<SpecInstr>, i: int) -> Set<u8>
    decreases iv.len() - i,
{
    if 0 <= i < iv.len() {
        instr_regs(iv[i]).union(instrs_regs(iv, i + 1))
    } else {
        Set::empty()
    }
}

/// The registers of `s` from `k` up to 255, in increasing order.
pub open spec fn regs_from(s: Set<u8>, k: int) -> Seq<u8>
    decreases 256 - k,
{
    if 0 <= k < 256 {
        if s.contains(k as u8) {
            seq![k as u8] + regs_from(s, k + 1)
        } else {
            regs_from(s, k + 1)
        }
    } else {
        Seq::empty()
    }
}

/// The registers of `s` in increasing order.
pub open spec fn sorted_regs(s: Set<u8>) -> Seq<u8> {
    regs_from(s, 0)
}

/// The saving of a register `r`: its slot is `r + 12`.
pub open spec fn push_line(r: u8) -> Seq<char> {
    line("push r"@ + nat_text(r as nat + 12))
}

/// The restoring of a register `r`.
pub open spec fn pop_line(r: u8) -> Seq<char> {
    line("pop r"@ + nat_text(r as nat + 12))
}

/// The saves of `rs[i..]`, in order.
pub open spec fn push_lines(rs: Seq<u8>, i: int) -> Seq<char>
    decreases rs.len() - i,
{
    if 0 <= i < rs.len() {
        push_line(rs[i]) + push_lines(rs, i + 1)
    } else {
        Seq::empty()
    }
}

/// The restores of `rs[..k]`, last first.
pub open spec fn pop_lines(rs: Seq<u8>, k: int) -> Seq<char>
    decreases k,
{
    if 0 < k <= rs.len() {
        pop_line(rs[k - 1]) + pop_lines(rs, k - 1)
    } else {
        Seq::empty()
    }
}

/// The assembly of a generation pass: the entry label, saves of the registers
/// used by earlier passes in increasing order, the instructions, and the
/// restores in decreasing order.
pub open spec fn pass_text(used: Set<u8>, iv: Seq<SpecInstr>) -> Seq<char> {
    let rs = sorted_regs(used);
    line(".global main"@) + line("main:"@) + push_lines(rs, 0) + instrs_text(iv, 0)
        + pop_lines(rs, rs.len() as int)
}

/// Generates assembly text, remembering the registers it has named.
pub struct CodeGenerator {
    assembly: String,
    used_registers: HashSetWithView<u8>,
}

impl CodeGenerator {
    /// The assembly text so far.
    pub closed spec fn text(&self) -> Seq<char> {
        self.assembly@
    }

    /// The registers named so far.
    pub closed spec fn used(&self) -> Set<u8> {
        self.used_registers@
    }

    /// A generator with no text and no registers used.
    pub fn new() -> (g: CodeGenerator)
        ensures
            g.text() == Seq::<char>::empty(),
            g.used() == Set::<u8>::empty(),
    {
        CodeGenerator { assembly: String::new(), used_registers: HashSetWithView::new() }
    }

    /// The assembly text so far.
    pub fn assembly(&self) -> (r: &str)
        ensures
            r@ == self.text(),
    {
        self.assembly.as_str()
    }

    fn emit(&mut self, s: String)
        ensures
            final(self).text() == old(self).text() + line(s@),
            final(self).used() == old(self).used(),
    {
        self.assembly.append(s.as_str());
        push_char(&mut self.assembly, '\n');
        assert(final(self).text() =~= old(self).text() + line(s@));
    }

    /// The registers used so far, in increasing order.
    fn sorted_used(&self) -> (r: Vec<u8>)
        ensures
            r@ == sorted_regs(self.used()),
    {
        let mut r: Vec<u8> = Vec::new();
        let mut k: u16 = 0;
        while k < 256
            invariant
                k <= 256,
                r@ + regs_from(self.used(), k as int) == sorted_regs(self.used()),
            decreases 256 - k,
        {
            let reg = k as u8;
            if self.used_registers.contains(&reg) {
                r.push(reg);
            }
            k = k + 1;
            assert(r@ + regs_from(self.used(), k as int) =~= sorted_regs(self.used()));
        }
        assert(r@ + regs_from(self.used(), k as int) =~= r@);
        r
    }

    /// Appends the assembly of `instructions`, framed by the entry label and
    /// the saves and restores of registers named by earlier passes.
    pub fn generate(&mut self, instructions: &[Instruction])
        requires
            all_emittable(instrs_view(instructions@), 0),
            forall|r: u8| old(self).used().contains(r) ==> r < 244,
        ensures
            final(self).text() == old(self).text() + pass_text(old(self).used(), instrs_view(instructions@)),
            final(self).used() == old(self).used().union(instrs_regs(instrs_view(instructions@), 0)),
    {
        let ghost iv = instrs_view(instructions@);
        let ghost t0 = self.text();
        let ghost u0 = self.used();
        self.emit(String::from_str(".global main"));
        self.emit(String::from_str("main:"));
        let used_regs = self.sorted_used();
        let ghost rs = used_regs@;
        proof { lemma_regs_from_members(u0, 0); }
        let ghost t1 = self.text();
        let mut i: usize = 0;
        assert(t1 + push_lines(rs, 0) =~= t1 + push_lines(rs, 0));
        while i < used_regs.len()
            invariant
                i <= rs.len(),
                rs == used_regs@,
                rs == sorted_regs(u0),
                forall|j: int| 0 <= j < rs.len() ==> u0.contains(#[trigger] rs[j]),
                forall|r: u8| u0.contains(r) ==> r < 244,
                self.used() == u0,
                self.text() + push_lines(rs, i as int) == t1 + push_lines(rs, 0),
            decreases rs.len() - i,
        {
            let reg = used_regs[i];
            assert(u0.contains(rs[i as int]));
            let mut s = String::from_str("push r");
            push_nat(&mut s, (12 + reg) as u64);
            let ghost before = self.text();
            self.emit(s);
            i = i + 1;
            assert(before + push_lines(rs, i - 1) =~= self.text() + push_lines(rs, i as int));
        }
        assert(self.text() + push_lines(rs, i as int) =~= self.text());
        let ghost t2 = self.text();
        let mut k: usize = 0;
        assert(t2 + Seq::<char>::empty() =~= t2);
        while k < instructions.len()
            invariant
                k <= instructions@.len(),
                iv == instrs_view(instructions@),
                all_emittable(iv, k as int),
                self.text() + instrs_text(iv, k as int) == t2 + instrs_text(iv, 0),
                self.used().union(instrs_regs(iv, k as int)) == u0.union(instrs_regs(iv, 0)),
            decreases instructions@.len() - k,
        {
            let ghost before = self.text();
            let ghost ub = self.used();
            assert(iv[k as int] == instructions@[k as int]@);
            self.generate_instruction(&instructions[k]);
            k = k + 1;
            assert(before + instrs_text(iv, k - 1) =~= self.text() + instrs_text(iv, k as int));
            assert(ub.union(instrs_regs(iv, k - 1)) =~= self.used().union(instrs_regs(iv, k as int)));
        }
        assert(self.text() + instrs_text(iv, k as int) =~= self.text());
        assert(self.used().union(instrs_regs(iv, k as int)) =~= self.used());
        let ghost t3 = self.text();
        let ghost u3 = self.used();
        let mut j: usize = used_regs.len();
        assert(t3 + pop_lines(rs, rs.len() as int) =~= t3 + pop_lines(rs, rs.len() as int));
        while j > 0
            invariant
                j <= rs.len(),
                rs == used_regs@,
                forall|q: int| 0 <= q < rs.len() ==> u0.contains(#[trigger] rs[q]),
                forall|r: u8| u0.contains(r) ==> r < 244,
                self.used() == u3,
                self.text() + pop_lines(rs, j as int) == t3 + pop_lines(rs, rs.len() as int),
            decreases j,
        {
            let reg = used_regs[j - 1];
            assert(u0.contains(rs[j - 1]));
            let mut s = String::from_str("pop r");
            push_nat(&mut s, (12 + reg) as u64);
            let ghost before = self.text();
            self.emit(s);
            j = j - 1;
            assert(before + pop_lines(rs, j + 1) =~= self.text() + pop_lines(rs, j as int));
        }
        assert(self.text() + pop_lines(rs, 0) =~= self.text());
        assert(self.text() =~= t0 + pass_text(u0, iv));
    }

    /// Whether `generate` can take `instructions`: every instruction can be
    /// turned into assembly, and every register used so far has a save slot
    /// (`r + 12`) that is a `u8`.
    pub fn can_generate(&self, instructions: &[Instruction]) -> (r: bool)
        ensures
            r == (all_emittable(instrs_view(instructions@), 0) && forall|q: u8| self.used().contains(q) ==> q < 244),
    {
        let mut q: u16 = 244;
        while q < 256
            invariant
                244 <= q <= 256,
                forall|x: u8| 244 <= x < q ==> !self.used().contains(x),
            decreases 256 - q,
        {
            if self.used_registers.contains(&(q as u8)) {
                assert(self.used().contains(q as u8) && !((q as u8) < 244));
                return false;
            }
            q = q + 1;
        }
        assert forall|x: u8| self.used().contains(x) implies x < 244 by {
            if x >= 244 {
                assert(244 <= x < q);
            }
        }
        let ghost iv = instrs_view(instructions@);
        let mut i = instructions.len();
        while i > 0
            invariant
                i <= instructions@.len(),
                iv == instrs_view(instructions@),
                all_emittable(iv, i as int),
            decreases i,
        {
            assert(iv[i - 1] == instructions@[i - 1]@);
            if !emittable_instruction(&instructions[i - 1]) {
                proof { lemma_all_emittable_at(iv, 0, i - 1); }
                return false;
            }
            i = i - 1;
        }
        true
    }

    fn generate_instruction(&mut self, instruction: &Instruction)
        requires
            emittable(instruction@),
        ensures
            final(self).text() == old(self).text() + instr_text(instruction@),
            final(self).used() == old(self).used().union(instr_regs(instruction@)),
    {
        let ghost t0 = self.text();
        let ghost u0 = self.used();
        match instruction {
            Instruction::Load(dest, src) => {
                let dest_reg = self.operand_to_reg(dest);
                let src_val = self.operand_to_val(src);
                let mut s = String::from_str("mov ");
                s.append(dest_reg.as_str());
                s.append(", ");
                s.append(src_val.as_str());
                self.emit(s);
                assert(self.used() =~= u0.union(instr_regs(instruction@)));
            },
            Instruction::Add(dest, src1, src2) => {
                let dest_reg = self.operand_to_reg(dest);
                let src1_reg = self.operand_to_reg(src1);
                let src2_reg = self.operand_to_reg(src2);
                let mut s1 = String::from_str("mov ");
                s1.append(dest_reg.as_str());
                s1.append(", ");
                s1.append(src1_reg.as_str());
                self.emit(s1);
                let mut s2 = String::from_str("add ");
                s2.append(dest_reg.as_str());
                s2.append(", ");
                s2.append(src2_reg.as_str());
                self.emit(s2);
                assert(self.text() =~= t0 + instr_text(instruction@));
                assert(self.used() =~= u0.union(instr_regs(instruction@)));
            },
            Instruction::Ret(reg) => {
                let ret_reg = self.operand_to_reg(reg);
                let mut s = String::from_str("mov rax, ");
                s.append(ret_reg.as_str());
                self.emit(s);
                self.emit(String::from_str("ret"));
                assert(self.text() =~= t0 + instr_text(instruction@));
                assert(self.used() =~= u0.union(instr_regs(instruction@)));
            },
            Instruction::Call(name, args) => {
                let ghost av = operands_view(args@);
                let mut i: usize = 0;
                assert(t0 + Seq::<char>::empty() =~= t0);
                while i < args.len()
                    invariant
                        i <= args@.len(),
                        av == operands_view(args@),
                        all_regs(av, i as int),
                        self.text() + args_text(av, i as int) == t0 + args_text(av, 0),
                        self.used().union(operand_regs(av, i as int)) == u0.union(operand_regs(av, 0)),
                    decreases args@.len() - i,
                {
                    let ghost before = self.text();
                    let ghost ub = self.used();
                    assert(av[i as int] == args@[i as int]@);
                    let arg_reg = self.operand_to_reg(&args[i]);
                    let mut s = String::from_str("mov rdi");
                    push_nat(&mut s, i as u64);
                    s.append(", ");
                    s.append(arg_reg.as_str());
                    self.emit(s);
                    i = i + 1;
                    assert(before + args_text(av, i - 1) =~= self.text() + args_text(av, i as int));
                    assert(ub.union(operand_regs(av, i - 1)) =~= self.used().union(operand_regs(av, i as int)));
                }
                assert(self.text() + args_text(av, i as int) =~= self.text());
                assert(self.used().union(operand_regs(av, i as int)) =~= self.used());
                let func_name = self.operand_to_val(name);
                let mut s = String::from_str("call ");
                s.append(func_name.as_str());
                self.emit(s);
                assert(self.text() =~= t0 + instr_text(instruction@));
            },
            Instruction::Store(_, _) => {
                assert(false);
            },
        }
    }

    fn operand_to_reg(&mut self, operand: &Operand) -> (r: String)
        requires
            is_reg(operand@),
        ensures
            r@ == reg_operand_text(operand@),
            final(self).used() == old(self).used().insert(operand@->Register_0),
            final(self).text() == old(self).text(),
    {
        match operand {
            Operand::Register(r) => {
                self.used_registers.insert(*r);
                let mut s = String::from_str("r");
                push_nat(&mut s, *r as u64);
                assert(s@ =~= reg_operand_text(operand@));
                s
            },
            _ => {
                assert(false);
                String::new()
            },
        }
    }

    fn operand_to_val(&self, operand: &Operand) -> (r: String)
        requires
            is_val(operand@),
        ensures
            r@ == val_text(operand@),
    {
        match operand {
            Operand::Immediate(i) => crate::text::int_to_string(*i),
            Operand::Label(l) => l.clone(),
            _ => {
                assert(false);
                String::new()
            },
        }
    }
}

/// Every register listed by `regs_from` is in the set.
proof fn lemma_regs_from_members(s: Set<u8>, k: int)
    ensures
        forall|j: int| 0 <= j < regs_from(s, k).len() ==> s.contains(#[trigger] regs_from(s, k)[j]),
    decreases 256 - k,
{
    if 0 <= k < 256 {
        lemma_regs_from_members(s, k + 1);
        if s.contains(k as u8) {
            let rest = regs_from(s, k + 1);
            assert(regs_from(s, k) == seq![k as u8] + rest);
            assert forall|j: int| 0 <= j < regs_from(s, k).len() implies s.contains(#[trigger] regs_from(s, k)[j]) by {
                if j > 0 {
                    assert(regs_from(s, k)[j] == rest[j - 1]);
                } else {
                    assert(regs_from(s, k)[j] == k as u8);
                }
            }
        }
    }
}

/// The registers saved by a pass are exactly the registers used before it,
/// each once, in increasing order.
pub proof fn law_saved_registers(s: Set<u8>)
    ensures
        forall|r: u8| #[trigger] sorted_regs(s).contains(r) <==> s.contains(r),
        forall|i: int, j: int| 0 <= i < j < sorted_regs(s).len() ==> sorted_regs(s)[i] < sorted_regs(s)[j],
{
    lemma_regs_from_exact(s, 0);
}

proof fn lemma_regs_from_exact(s: Set<u8>, k: int)
    requires
        0 <= k <= 256,
    ensures
        forall|r: u8| #[trigger] regs_from(s, k).contains(r) <==> (s.contains(r) && k <= r),
        forall|i: int, j: int| 0 <= i < j < regs_from(s, k).len() ==> regs_from(s, k)[i] < regs_from(s, k)[j],
        forall|i: int| 0 <= i < regs_from(s, k).len() ==> k <= #[trigger] regs_from(s, k)[i],
    decreases 256 - k,
{
    if k < 256 {
        lemma_regs_from_exact(s, k + 1);
        let rest = regs_from(s, k + 1);
        if s.contains(k as u8) {
            let all = seq![k as u8] + rest;
            assert(regs_from(s, k) == all);
            assert forall|r: u8| #[trigger] all.contains(r) <==> (s.contains(r) && k <= r) by {
                if all.contains(r) {
                    let idx = choose|idx: int| 0 <= idx < all.len() && all[idx] == r;
                    if idx > 0 {
                        assert(rest[idx - 1] == r);
                        assert(rest.contains(r));
                    }
                }
                if s.contains(r) && k <= r {
                    if r == k {
                        assert(all[0] == r);
                    } else {
                        assert(rest.contains(r));
                        let idx = choose|idx: int| 0 <= idx < rest.len() && rest[idx] == r;
                        assert(all[idx + 1] == r);
                    }
                }
            }
            assert forall|i: int| 0 <= i < all.len() implies k <= #[trigger] all[i] by {
                if i > 0 {
                    assert(all[i] == rest[i - 1]);
                }
            }
            assert forall|i: int, j: int| 0 <= i < j < all.len() implies all[i] < all[j] by {
                assert(all[j] == rest[j - 1]);
                if i > 0 {
                    assert(all[i] == rest[i - 1]);
                } else {
                    assert(k + 1 <= rest[j - 1]);
                }
            }
        } else {
            assert forall|r: u8| #[trigger] rest.contains(r) <==> (s.contains(r) && k <= r) by {
                if s.contains(r) && k <= r {
                    assert(r != k);
                }
            }
            assert forall|i: int| 0 <= i < rest.len() implies k <= #[trigger] rest[i] by {
            }
        }
    } else {
        assert forall|r: u8| #[trigger] regs_from(s, k).contains(r) <==> (s.contains(r) && k <= r) by {
            assert(regs_from(s, k) =~= Seq::<u8>::empty());
        }
    }
}

/// If an instruction at `j >= i` cannot be emitted, neither can `iv[i..]`.
proof fn lemma_all_emittable_at(iv: Seq<SpecInstr>, i: int, j: int)
    requires
        0 <= i <= j < iv.len(),
        !emittable(iv[j]),
    ensures
        !all_emittable(iv, i),
    decreases j - i,
{
    if i < j {
        lemma_all_emittable_at(iv, i + 1, j);
    }
}

fn is_register(o: &Operand) -> (r: bool)
    ensures
        r == is_reg(o@),
{
    match o {
        Operand::Register(_) => true,
        _ => false,
    }
}

fn is_value(o: &Operand) -> (r: bool)
    ensures
        r == is_val(o@),
{
    match o {
        Operand::Register(_) => false,
        _ => true,
    }
}

/// Whether one instruction can be turned into assembly.
fn emittable_instruction(i: &Instruction) -> (r: bool)
    ensures
        r == emittable(i@),
{
    match i {
        Instruction::Load(d, s) => is_register(d) && is_value(s),
        Instruction::Add(d, a, b) => is_register(d) && is_register(a) && is_register(b),
        Instruction::Ret(r) => is_register(r),
        Instruction::Call(f, args) => {
            if !is_value(f) {
                return false;
            }
            let ghost av = operands_view(args@);
            let mut k = args.len();
            while k > 0
                invariant
                    k <= args@.len(),
                    av == operands_view(args@),
                    all_regs(av, k as int),
                    *i == Instruction::Call(*f, *args),
                decreases k,
            {
                assert(av[k - 1] == args@[k - 1]@);
                if !is_register(&args[k - 1]) {
                    proof { lemma_all_regs_at(av, 0, k - 1); }
                    assert(i@ == SpecInstr::Call(f@, av));
                    assert(!all_regs(av, 0));
                    return false;
                }
                k = k - 1;
            }
            true
        },
        Instruction::Store(_, _) => false,
    }
}

proof fn lemma_all_regs_at(av: Seq<SpecOperand>, i: int, j: int)
    requires
        0 <= i <= j < av.len(),
        !is_reg(av[j]),
    ensures
        !all_regs(av, i),
    decreases j - i,
{
    if i < j {
        lemma_all_regs_at(av, i + 1, j);
    }
}

/// The line that passes argument `k` of a call: its register is moved into
/// the parameter register `rdi<k>`.
pub open spec fn arg_move(args: Seq<SpecOperand>, k: int) -> Seq<char> {
    line("mov rdi"@ + nat_text(k as nat) + ", "@ + reg_operand_text(args[k]))
}

/// The moves of the first `m` arguments, in order.
pub open spec fn moves_upto(args: Seq<SpecOperand>, m: int) -> Seq<char>
    decreases m,
{
    if m <= 0 {
        Seq::empty()
    } else {
        moves_upto(args, m - 1) + arg_move(args, m - 1)
    }
}

/// The argument moves from position `k` on come after the moves of the
/// first `k` arguments.
proof fn lemma_args_text_split(args: Seq<SpecOperand>, k: int)
    requires
        0 <= k <= args.len(),
    ensures
        args_text(args, 0) == moves_upto(args, k) + args_text(args, k),
    decreases k,
{
    if k > 0 {
        lemma_args_text_split(args, k - 1);
        assert(args_text(args, k - 1) == arg_move(args, k - 1) + args_text(args, k));
        assert(moves_upto(args, k - 1) + (arg_move(args, k - 1) + args_text(args, k))
            =~= moves_upto(args, k) + args_text(args, k));
    } else {
        assert(moves_upto(args, 0) + args_text(args, 0) =~= args_text(args, 0));
    }
}

/// A call passes its arguments in order, argument `k` in `rdi<k>`: its
/// assembly is the move of argument 0, then of argument 1, and so on, then
/// the `call`. The text after the moves of the first `k` arguments begins with
/// the move of argument `k` into `rdi<k>`.
pub proof fn law_call_passes_arguments_in_order(f: SpecOperand, args: Seq<SpecOperand>, k: int)
    requires
        0 <= k < args.len(),
    ensures
        instr_text(SpecInstr::Call(f, args)) == moves_upto(args, args.len() as int) + line("call "@ + val_text(f)),
        instr_text(SpecInstr::Call(f, args)) == moves_upto(args, k) + line(
            "mov rdi"@ + nat_text(k as nat) + ", "@ + reg_operand_text(args[k]),
        ) + args_text(args, k + 1) + line("call "@ + val_text(f)),
{
    lemma_args_text_split(args, args.len() as int);
    lemma_args_text_split(args, k);
    assert(args_text(args, args.len() as int) == Seq::<char>::empty());
    assert(moves_upto(args, args.len() as int) + Seq::<char>::empty() =~= moves_upto(args, args.len() as int));
    assert(args_text(args, k) == arg_move(args, k) + args_text(args, k + 1));
    assert(moves_upto(args, k) + (arg_move(args, k) + args_text(args, k + 1))
        =~= moves_upto(args, k) + arg_move(args, k) + args_text(args, k + 1));
}

} // verus!
