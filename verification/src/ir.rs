//! The intermediate representation: register instructions, and the
//! generator that lowers programs to them.
use vstd::prelude::*;
use crate::lexer::SpecToken;
use crate::ast::{Expression, Statement, Program, SpecExpr, SpecStmt, expr_view, expr_seq_view, stmt_seq_view};

verus! {

/// An instruction operand.
#[derive(Debug, Clone, PartialEq)]
pub enum Operand {
    Register(u8),
    Immediate(i64),
    Label(String),
}

/// An instruction.
#[derive(Debug, Clone, PartialEq)]
pub enum Instruction {
    Load(Operand, Operand),
    Store(Operand, Operand),
    Add(Operand, Operand, Operand),
    Ret(Operand),
    Call(Operand, Vec<Operand>),
}

/// The mathematical value of an operand.
pub enum SpecOperand {
    Register(u8),
    Immediate(i64),
    Label(Seq<char>),
}

/// The mathematical value of an instruction.
pub enum SpecInstr {
    Load(SpecOperand, SpecOperand),
    Store(SpecOperand, SpecOperand),
    Add(SpecOperand, SpecOperand, SpecOperand),
    Ret(SpecOperand),
    Call(SpecOperand, Seq<SpecOperand>),
}

impl View for Operand {
    type V = SpecOperand;

    open spec fn view(&self) -> SpecOperand {
        match self {
            Operand::Register(r) => SpecOperand::Register(*r),
            Operand::Immediate(i) => SpecOperand::Immediate(*i),
            Operand::Label(l) => SpecOperand::Label(l@),
        }
    }
}

/// The views of a sequence of operands.
pub open spec fn operands_view(v: Seq<Operand>) -> Seq<SpecOperand> {
    v.map_values(|o: Operand| o@)
}

impl View for Instruction {
    type V = SpecInstr;

    open spec fn view(&self) -> SpecInstr {
        match self {
            Instruction::Load(a, b) => SpecInstr::Load(a@, b@),
            Instruction::Store(a, b) => SpecInstr::Store(a@, b@),
            Instruction::Add(a, b, c) => SpecInstr::Add(a@, b@, c@),
            Instruction::Ret(a) => SpecInstr::Ret(a@),
            Instruction::Call(f, args) => SpecInstr::Call(f@, operands_view(args@)),
        }
    }
}

/// The views of a sequence of instructions.
pub open spec fn instrs_view(v: Seq<Instruction>) -> Seq<SpecInstr> {
    v.map_values(|i: Instruction| i@)
}

impl Operand {
    /// A copy of this operand.
    pub fn duplicate(&self) -> (r: Operand)
        ensures
            r@ == self@,
    {
        match self {
            Operand::Register(r) => Operand::Register(*r),
            Operand::Immediate(i) => Operand::Immediate(*i),
            Operand::Label(l) => Operand::Label(l.clone()),
        }
    }
}

/// Copies a sequence of operands.
pub fn duplicate_operands(v: &Vec<Operand>) -> (r: Vec<Operand>)
    ensures
        operands_view(r@) == operands_view(v@),
{
    let mut r: Vec<Operand> = Vec::new();
    let mut i: usize = 0;
    while i < v.len()
        invariant
            i <= v@.len(),
            operands_view(r@) == operands_view(v@).take(i as int),
        decreases v@.len() - i,
    {
        let ghost prev = r@;
        r.push(v[i].duplicate());
        assert(operands_view(r@) =~= operands_view(prev).push(v@[i as int]@));
        i = i + 1;
        assert(operands_view(r@) =~= operands_view(v@).take(i as int));
    }
    assert(operands_view(v@).take(i as int) =~= operands_view(v@));
    r
}

impl Instruction {
    /// A copy of this instruction.
    pub fn duplicate(&self) -> (r: Instruction)
        ensures
            r@ == self@,
    {
        match self {
            Instruction::Load(a, b) => Instruction::Load(a.duplicate(), b.duplicate()),
            Instruction::Store(a, b) => Instruction::Store(a.duplicate(), b.duplicate()),
            Instruction::Add(a, b, c) => Instruction::Add(a.duplicate(), b.duplicate(), c.duplicate()),
            Instruction::Ret(a) => Instruction::Ret(a.duplicate()),
            Instruction::Call(f, args) => Instruction::Call(f.duplicate(), duplicate_operands(args)),
        }
    }
}

/// Whether an expression can be lowered: integer literals, infix expressions
/// of lowerable operands, and calls of a named function on lowerable
/// arguments.
pub open spec fn lowerable_expr(e: SpecExpr) -> bool
    decreases e, 0int,
{
    match e {
        SpecExpr::IntLiteral(_) => true,
        SpecExpr::Infix(_, l, r) => lowerable_expr(*l) && lowerable_expr(*r),
        SpecExpr::Call { function, arguments } => (*function) is Ident && lowerable_args(arguments, 0),
        _ => false,
    }
}

/// Whether the arguments `args[i..]` can all be lowered.
pub open spec fn lowerable_args(args: Seq<SpecExpr>, i: int) -> bool
    decreases args, args.len() - i,
{
    if 0 <= i < args.len() {
        lowerable_expr(args[i]) && lowerable_args(args, i + 1)
    } else {
        true
    }
}

/// The number of registers lowering an expression takes.
pub open spec fn regs_expr(e: SpecExpr) -> nat
    decreases e, 0int,
{
    match e {
        SpecExpr::Infix(_, l, r) => regs_expr(*l) + regs_expr(*r) + 1,
        SpecExpr::Call { function, arguments } => regs_args(arguments, 0) + 1,
        _ => 1,
    }
}

/// The number of registers lowering the arguments `args[i..]` takes.
pub open spec fn regs_args(args: Seq<SpecExpr>, i: int) -> nat
    decreases args, args.len() - i,
{
    if 0 <= i < args.len() {
        regs_expr(args[i]) + regs_args(args, i + 1)
    } else {
        0
    }
}

/// The instructions for an expression, the operand holding its value, and the
/// register count after it, starting from register count `n`.
///
/// A literal is loaded into a fresh register; an infix expression (of any
/// operator) adds the registers of its operands into a fresh register; a call
/// passes the registers of its arguments to the named function, and its value
/// is a fresh register.
pub open spec fn lower_expr(e: SpecExpr, n: nat) -> (Seq<SpecInstr>, SpecOperand, nat)
    decreases e, 0int,
{
    match e {
        SpecExpr::IntLiteral(v) => (
            seq![SpecInstr::Load(SpecOperand::Register(n as u8), SpecOperand::Immediate(v))],
            SpecOperand::Register(n as u8),
            n + 1,
        ),
        SpecExpr::Infix(_, l, r) => {
            let (il, ol, n1) = lower_expr(*l, n);
            let (ir, or, n2) = lower_expr(*r, n1);
            (
                il + ir + seq![SpecInstr::Add(SpecOperand::Register(n2 as u8), ol, or)],
                SpecOperand::Register(n2 as u8),
                n2 + 1,
            )
        },
        SpecExpr::Call { function, arguments } => {
            let (ia, ops, n1) = lower_args(arguments, 0, n);
            let name = match *function {
                SpecExpr::Ident(s) => s,
                _ => Seq::empty(),
            };
            (
                ia + seq![SpecInstr::Call(SpecOperand::Label(name), ops)],
                SpecOperand::Register(n1 as u8),
                n1 + 1,
            )
        },
        _ => (Seq::empty(), SpecOperand::Register(n as u8), n),
    }
}

/// The instructions and operands of the arguments `args[i..]`, lowered in order.
pub open spec fn lower_args(args: Seq<SpecExpr>, i: int, n: nat) -> (Seq<SpecInstr>, Seq<SpecOperand>, nat)
    decreases args, args.len() - i,
{
    if 0 <= i < args.len() {
        let (i1, o1, n1) = lower_expr(args[i], n);
        let (i2, o2, n2) = lower_args(args, i + 1, n1);
        (i1 + i2, seq![o1] + o2, n2)
    } else {
        (Seq::empty(), Seq::empty(), n)
    }
}

/// Whether a statement can be lowered: a `let` or a `return` of a lowerable
/// expression.
pub open spec fn lowerable_stmt(s: SpecStmt) -> bool {
    match s {
        SpecStmt::Let(_, e) => lowerable_expr(e),
        SpecStmt::Return(e) => lowerable_expr(e),
        SpecStmt::Expression(_) => false,
    }
}

/// The instructions for a statement and the register count after it: a `let`
/// evaluates its value, a `return` also returns the value's operand.
pub open spec fn lower_stmt(s: SpecStmt, n: nat) -> (Seq<SpecInstr>, nat) {
    match s {
        SpecStmt::Let(_, e) => {
            let (i, _, n1) = lower_expr(e, n);
            (i, n1)
        },
        SpecStmt::Return(e) => {
            let (i, o, n1) = lower_expr(e, n);
            (i.push(SpecInstr::Ret(o)), n1)
        },
        SpecStmt::Expression(e) => (Seq::empty(), n),
    }
}

/// The number of registers lowering a statement takes.
pub open spec fn regs_stmt(s: SpecStmt) -> nat {
    match s {
        SpecStmt::Let(_, e) => regs_expr(e),
        SpecStmt::Return(e) => regs_expr(e),
        SpecStmt::Expression(e) => 0,
    }
}

/// Whether every statement of `ss[i..]` can be lowered.
pub open spec fn lowerable_stmts(ss: Seq<SpecStmt>, i: int) -> bool
    decreases ss.len() - i,
{
    if 0 <= i < ss.len() {
        lowerable_stmt(ss[i]) && lowerable_stmts(ss, i + 1)
    } else {
        true
    }
}

/// The number of registers lowering `ss[i..]` takes.
pub open spec fn regs_stmts(ss: Seq<SpecStmt>, i: int) -> nat
    decreases ss.len() - i,
{
    if 0 <= i < ss.len() {
        regs_stmt(ss[i]) + regs_stmts(ss, i + 1)
    } else {
        0
    }
}

/// The instructions for `ss[i..]` and the register count after them.
pub open spec fn lower_stmts(ss: Seq<SpecStmt>, i: int, n: nat) -> (Seq<SpecInstr>, nat)
    decreases ss.len() - i,
{
    if 0 <= i < ss.len() {
        let (i1, n1) = lower_stmt(ss[i], n);
        let (i2, n2) = lower_stmts(ss, i + 1, n1);
        (i1 + i2, n2)
    } else {
        (Seq::empty(), n)
    }
}

/// Lowers programs to instructions, numbering registers from zero.
pub struct IRGenerator {
    instructions: Vec<Instruction>,
    register_count: u8,
}

impl IRGenerator {
    /// The instructions generated so far.
    pub closed spec fn instrs(&self) -> Seq<SpecInstr> {
        instrs_view(self.instructions@)
    }

    /// The number of registers handed out so far.
    pub closed spec fn count(&self) -> nat {
        self.register_count as nat
    }

    /// A generator with no instructions and no registers used.
    pub fn new() -> (g: IRGenerator)
        ensures
            g.instrs() == Seq::<SpecInstr>::empty(),
            g.count() == 0,
    {
        let g = IRGenerator { instructions: Vec::new(), register_count: 0 };
        assert(g.instrs() =~= Seq::<SpecInstr>::empty());
        g
    }

    fn next_register(&mut self) -> (r: Operand)
        requires
            old(self).count() < 255,
        ensures
            r@ == SpecOperand::Register(old(self).count() as u8),
            final(self).count() == old(self).count() + 1,
            final(self).instrs() == old(self).instrs(),
    {
        let reg = Operand::Register(self.register_count);
        self.register_count = self.register_count + 1;
        reg
    }

    fn emit(&mut self, instruction: Instruction)
        ensures
            final(self).instrs() == old(self).instrs().push(instruction@),
            final(self).count() == old(self).count(),
    {
        let ghost prev = self.instructions@;
        self.instructions.push(instruction);
        assert(instrs_view(self.instructions@) =~= instrs_view(prev).push(instruction@));
    }

    /// Appends the instructions of every statement of `program`, in order.
    pub fn generate(&mut self, program: &Program)
        requires
            lowerable_stmts(program@, 0),
            old(self).count() + regs_stmts(program@, 0) <= 255,
        ensures
            final(self).instrs() == old(self).instrs() + lower_stmts(program@, 0, old(self).count()).0,
            final(self).count() == lower_stmts(program@, 0, old(self).count()).1,
    {
        let ghost ss = program@;
        let ghost i0 = self.instrs();
        let ghost c0 = self.count();
        let mut i: usize = 0;
        assert(i0 + Seq::<SpecInstr>::empty() =~= i0);
        while i < program.statements.len()
            invariant
                i <= program.statements@.len(),
                ss == program@,
                ss == stmt_seq_view(program.statements@),
                lowerable_stmts(ss, i as int),
                self.count() + regs_stmts(ss, i as int) <= 255,
                i0 + lower_stmts(ss, 0, c0).0 == self.instrs() + lower_stmts(ss, i as int, self.count()).0,
                lower_stmts(ss, 0, c0).1 == lower_stmts(ss, i as int, self.count()).1,
            decreases program.statements@.len() - i,
        {
            let ghost before = self.instrs();
            let ghost cb = self.count();
            self.generate_statement(&program.statements[i]);
            i = i + 1;
            assert(before + lower_stmts(ss, i - 1, cb).0 =~= self.instrs() + lower_stmts(ss, i as int, self.count()).0);
        }
        assert(self.instrs() + lower_stmts(ss, i as int, self.count()).0 =~= self.instrs());
    }

    fn generate_statement(&mut self, statement: &Statement)
        requires
            lowerable_stmt(statement@),
            old(self).count() + regs_stmt(statement@) <= 255,
        ensures
            final(self).instrs() == old(self).instrs() + lower_stmt(statement@, old(self).count()).0,
            final(self).count() == lower_stmt(statement@, old(self).count()).1,
            final(self).count() == old(self).count() + regs_stmt(statement@),
    {
        match statement {
            Statement::Let(_, expr) => {
                self.generate_expression(expr);
            },
            Statement::Return(expr) => {
                let reg = self.generate_expression(expr);
                self.emit(Instruction::Ret(reg));
            },
            Statement::Expression(_) => {},
        }
    }

    fn generate_expression(&mut self, expression: &Expression) -> (r: Operand)
        requires
            lowerable_expr(expression@),
            old(self).count() + regs_expr(expression@) <= 255,
        ensures
            final(self).instrs() == old(self).instrs() + lower_expr(expression@, old(self).count()).0,
            r@ == lower_expr(expression@, old(self).count()).1,
            final(self).count() == lower_expr(expression@, old(self).count()).2,
            final(self).count() == old(self).count() + regs_expr(expression@),
        decreases expression,
    {
        let ghost i0 = self.instrs();
        let ghost c0 = self.count();
        match expression {
            Expression::IntLiteral(value) => {
                let reg = self.next_register();
                self.emit(Instruction::Load(reg.duplicate(), Operand::Immediate(*value)));
                assert(self.instrs() =~= i0 + lower_expr(expression@, c0).0);
                reg
            },
            Expression::Infix(_, left, right) => {
                let left_reg = self.generate_expression(left);
                let right_reg = self.generate_expression(right);
                let dest_reg = self.next_register();
                self.emit(Instruction::Add(dest_reg.duplicate(), left_reg, right_reg));
                assert(self.instrs() =~= i0 + lower_expr(expression@, c0).0);
                dest_reg
            },
            Expression::Call { function, arguments } => {
                let ghost av = expr_seq_view(arguments@);
                let mut arg_regs: Vec<Operand> = Vec::new();
                let mut k: usize = 0;
                assert(i0 + Seq::<SpecInstr>::empty() =~= i0);
                assert(operands_view(arg_regs@) + lower_args(av, 0, c0).1 =~= lower_args(av, 0, c0).1);
                while k < arguments.len()
                    invariant
                        k <= arguments@.len(),
                        av == expr_seq_view(arguments@),
                        *expression == (Expression::Call { function: *function, arguments: *arguments }),
                        lowerable_args(av, k as int),
                        self.count() + regs_args(av, k as int) <= 255,
                        i0 + lower_args(av, 0, c0).0 == self.instrs() + lower_args(av, k as int, self.count()).0,
                        lower_args(av, 0, c0).1 == operands_view(arg_regs@) + lower_args(av, k as int, self.count()).1,
                        lower_args(av, 0, c0).2 == lower_args(av, k as int, self.count()).2,
                        c0 + regs_args(av, 0) == self.count() + regs_args(av, k as int),
                    decreases arguments@.len() - k,
                {
                    let ghost before = self.instrs();
                    let ghost cb = self.count();
                    let ghost prev = arg_regs@;
                    assert(decreases_to!(*expression => (*expression)->Call_arguments));
                    assert(decreases_to!((*expression)->Call_arguments => arguments@));
                    assert(decreases_to!(arguments@ => arguments@[k as int]));
                    assert(av[k as int] == arguments@[k as int]@);
                    let reg = self.generate_expression(&arguments[k]);
                    arg_regs.push(reg);
                    assert(operands_view(arg_regs@) =~= operands_view(prev).push(reg@));
                    k = k + 1;
                    assert(before + lower_args(av, k - 1, cb).0 =~= self.instrs() + lower_args(av, k as int, self.count()).0);
                    assert(operands_view(prev) + lower_args(av, k - 1, cb).1 =~= operands_view(arg_regs@) + lower_args(av, k as int, self.count()).1);
                }
                assert(self.instrs() + lower_args(av, k as int, self.count()).0 =~= self.instrs());
                assert(operands_view(arg_regs@) + lower_args(av, k as int, self.count()).1 =~= operands_view(arg_regs@));
                let func_name = match &**function {
                    Expression::Ident(name) => name.clone(),
                    _ => String::new(),
                };
                let ghost mid = self.instrs();
                assert(mid == i0 + lower_args(av, 0, c0).0);
                assert(expression@ == (SpecExpr::Call { function: Box::new(expr_view(**function)), arguments: av }));
                assert(SpecExpr::Ident(func_name@) == expr_view(**function));
                let dest_reg = self.next_register();
                let call = Instruction::Call(Operand::Label(func_name), arg_regs);
                assert(call@ == SpecInstr::Call(SpecOperand::Label(func_name@), lower_args(av, 0, c0).1));
                self.emit(call);
                assert(self.instrs() =~= i0 + lower_expr(expression@, c0).0);
                dest_reg
            },
            _ => {
                assert(false);
                Operand::Register(0)
            },
        }
    }

    /// Whether `generate` can take `program`: every statement can be lowered
    /// and the registers it takes are still free.
    pub fn can_generate(&self, program: &Program) -> (r: bool)
        ensures
            r == (lowerable_stmts(program@, 0) && self.count() + regs_stmts(program@, 0) <= 255),
    {
        let ghost ss = program@;
        let mut budget: u16 = 255 - self.register_count as u16;
        let mut i: usize = 0;
        while i < program.statements.len()
            invariant
                i <= program.statements@.len(),
                ss == program@,
                ss == stmt_seq_view(program.statements@),
                budget <= 255,
                (lowerable_stmts(ss, 0) && self.count() + regs_stmts(ss, 0) <= 255)
                    == (lowerable_stmts(ss, i as int) && regs_stmts(ss, i as int) <= budget),
            decreases program.statements@.len() - i,
        {
            let cost = match &program.statements[i] {
                Statement::Let(_, e) => expr_cost(e, budget),
                Statement::Return(e) => expr_cost(e, budget),
                Statement::Expression(_) => None,
            };
            assert(ss[i as int] == program.statements@[i as int]@);
            match cost {
                Some(k) => {
                    budget = budget - k;
                    i = i + 1;
                },
                None => {
                    return false;
                },
            }
        }
        true
    }

    /// The instructions generated so far.
    pub fn instructions(&self) -> (r: &[Instruction])
        ensures
            instrs_view(r@) == self.instrs(),
    {
        self.instructions.as_slice()
    }
}

/// Lowering an expression takes exactly `regs_expr` registers, and its value
/// is in the last register it takes.
pub proof fn law_lower_expr_registers(e: SpecExpr, n: nat)
    requires
        lowerable_expr(e),
    ensures
        lower_expr(e, n).2 == n + regs_expr(e),
        lower_expr(e, n).1 == SpecOperand::Register((n + regs_expr(e) - 1) as u8),
    decreases e, 1int,
{
    match e {
        SpecExpr::Infix(_, l, r) => {
            law_lower_expr_registers(*l, n);
            law_lower_expr_registers(*r, n + regs_expr(*l));
        },
        SpecExpr::Call { function, arguments } => {
            law_lower_args_registers(arguments, 0, n);
        },
        _ => {},
    }
}

/// Lowering arguments takes exactly `regs_args` registers.
pub proof fn law_lower_args_registers(args: Seq<SpecExpr>, i: int, n: nat)
    requires
        lowerable_args(args, i),
    ensures
        lower_args(args, i, n).2 == n + regs_args(args, i),
    decreases args, args.len() - i,
{
    if 0 <= i < args.len() {
        law_lower_expr_registers(args[i], n);
        law_lower_args_registers(args, i + 1, n + regs_expr(args[i]));
    }
}

/// Lowering statements takes exactly `regs_stmts` registers.
pub proof fn law_lower_stmts_registers(ss: Seq<SpecStmt>, i: int, n: nat)
    requires
        lowerable_stmts(ss, i),
    ensures
        lower_stmts(ss, i, n).1 == n + regs_stmts(ss, i),
    decreases ss.len() - i,
{
    if 0 <= i < ss.len() {
        match ss[i] {
            SpecStmt::Let(_, e) => law_lower_expr_registers(e, n),
            SpecStmt::Return(e) => law_lower_expr_registers(e, n),
            SpecStmt::Expression(_) => {},
        }
        law_lower_stmts_registers(ss, i + 1, n + regs_stmt(ss[i]));
    }
}

/// The registers an expression takes, when it can be lowered within `budget`
/// registers; `None` when it cannot be lowered or takes more.
pub fn expr_cost(e: &Expression, budget: u16) -> (r: Option<u16>)
    requires
        budget <= 255,
    ensures
        r is Some <==> (lowerable_expr(e@) && regs_expr(e@) <= budget),
        r matches Some(k) ==> k == regs_expr(e@),
    decreases e,
{
    match e {
        Expression::IntLiteral(_) => if budget >= 1 { Some(1) } else { None },
        Expression::Infix(_, l, r) => {
            let a = match expr_cost(l, budget) {
                Some(a) => a,
                None => return None,
            };
            let b = match expr_cost(r, budget - a) {
                Some(b) => b,
                None => return None,
            };
            if a + b + 1 <= budget {
                Some(a + b + 1)
            } else {
                None
            }
        },
        Expression::Call { function, arguments } => {
            let is_named = match &**function {
                Expression::Ident(_) => true,
                _ => false,
            };
            assert((expr_view(**function) is Ident) == is_named);
            assert(e@ == (SpecExpr::Call { function: Box::new(expr_view(**function)), arguments: expr_seq_view(arguments@) }));
            if !is_named {
                return None;
            }
            let ghost av = expr_seq_view(arguments@);
            let mut used: u16 = 0;
            let mut k: usize = 0;
            while k < arguments.len()
                invariant
                    k <= arguments@.len(),
                    av == expr_seq_view(arguments@),
                    *e == (Expression::Call { function: *function, arguments: *arguments }),
                    used <= budget <= 255,
                    (lowerable_args(av, 0) && regs_args(av, 0) + 1 <= budget)
                        == (lowerable_args(av, k as int) && used + regs_args(av, k as int) + 1 <= budget),
                    regs_args(av, 0) == used + regs_args(av, k as int),
                decreases arguments@.len() - k,
            {
                assert(decreases_to!(*e => (*e)->Call_arguments));
                assert(decreases_to!((*e)->Call_arguments => arguments@));
                assert(decreases_to!(arguments@ => arguments@[k as int]));
                assert(av[k as int] == arguments@[k as int]@);
                match expr_cost(&arguments[k], budget - used) {
                    Some(c) => {
                        used = used + c;
                        k = k + 1;
                    },
                    None => {
                        return None;
                    },
                }
            }
            if used + 1 <= budget {
                Some(used + 1)
            } else {
                None
            }
        },
        _ => None,
    }
}

/// The register an instruction writes, if it writes one.
pub open spec fn dest_of(i: SpecInstr) -> Option<int> {
    match i {
        SpecInstr::Load(SpecOperand::Register(d), _) => Some(d as int),
        SpecInstr::Add(SpecOperand::Register(d), _, _) => Some(d as int),
        _ => None,
    }
}

/// Every register that `is` writes lies in `[lo, hi)`, and no register is
/// written twice.
pub open spec fn single_assignment(is: Seq<SpecInstr>, lo: int, hi: int) -> bool {
    &&& forall|k: int| 0 <= k < is.len() && (#[trigger] dest_of(is[k])) is Some ==> lo <= dest_of(is[k])->0 < hi
    &&& forall|j: int, k: int|
        0 <= j < is.len() && 0 <= k < is.len() && j != k && (#[trigger] dest_of(is[j])) is Some
            && (#[trigger] dest_of(is[k])) is Some ==> dest_of(is[j])->0 != dest_of(is[k])->0
}

/// Joining instructions that write disjoint ranges of registers keeps each
/// register written at most once.
proof fn lemma_single_assignment_concat(a: Seq<SpecInstr>, b: Seq<SpecInstr>, lo: int, mid: int, hi: int)
    requires
        lo <= mid <= hi,
        single_assignment(a, lo, mid),
        single_assignment(b, mid, hi),
    ensures
        single_assignment(a + b, lo, hi),
{
    let c = a + b;
    assert forall|k: int| 0 <= k < c.len() && (#[trigger] dest_of(c[k])) is Some implies lo <= dest_of(c[k])->0 < hi by {
        if k < a.len() {
            assert(c[k] == a[k]);
        } else {
            assert(c[k] == b[k - a.len()]);
        }
    }
    assert forall|j: int, k: int|
        0 <= j < c.len() && 0 <= k < c.len() && j != k && (#[trigger] dest_of(c[j])) is Some
            && (#[trigger] dest_of(c[k])) is Some implies dest_of(c[j])->0 != dest_of(c[k])->0 by {
        if j < a.len() {
            assert(c[j] == a[j]);
        } else {
            assert(c[j] == b[j - a.len()]);
        }
        if k < a.len() {
            assert(c[k] == a[k]);
        } else {
            assert(c[k] == b[k - a.len()]);
        }
    }
}

/// Lowering gives every value a register of its own: the instructions of an
/// expression write only registers handed out for it, each at most once.
pub proof fn law_lower_expr_single_assignment(e: SpecExpr, n: nat)
    requires
        lowerable_expr(e),
        n + regs_expr(e) <= 256,
    ensures
        single_assignment(lower_expr(e, n).0, n as int, (n + regs_expr(e)) as int),
    decreases e, 1int,
{
    law_lower_expr_registers(e, n);
    match e {
        SpecExpr::IntLiteral(v) => {
            let is = lower_expr(e, n).0;
            assert(dest_of(is[0]) == Some(n as int));
        },
        SpecExpr::Infix(_, l, r) => {
            law_lower_expr_registers(*l, n);
            let n1 = n + regs_expr(*l);
            law_lower_expr_registers(*r, n1);
            let n2 = n1 + regs_expr(*r);
            law_lower_expr_single_assignment(*l, n);
            law_lower_expr_single_assignment(*r, n1);
            let il = lower_expr(*l, n).0;
            let ir = lower_expr(*r, n1).0;
            let last = seq![SpecInstr::Add(SpecOperand::Register(n2 as u8), lower_expr(*l, n).1, lower_expr(*r, n1).1)];
            assert(dest_of(last[0]) == Some(n2 as int));
            lemma_single_assignment_concat(il, ir, n as int, n1 as int, n2 as int);
            lemma_single_assignment_concat(il + ir, last, n as int, n2 as int, (n2 + 1) as int);
        },
        SpecExpr::Call { function, arguments } => {
            law_lower_args_single_assignment(arguments, 0, n);
            law_lower_args_registers(arguments, 0, n);
            let n1 = n + regs_args(arguments, 0);
            let ia = lower_args(arguments, 0, n).0;
            let last = seq![SpecInstr::Call(SpecOperand::Label(match *function {
                SpecExpr::Ident(s) => s,
                _ => Seq::empty(),
            }), lower_args(arguments, 0, n).1)];
            assert(dest_of(last[0]) is None);
            lemma_single_assignment_concat(ia, last, n as int, n1 as int, (n1 + 1) as int);
        },
        _ => {},
    }
}

/// The arguments of a call are lowered with each register written at most
/// once, within the registers handed out for them.
pub proof fn law_lower_args_single_assignment(args: Seq<SpecExpr>, i: int, n: nat)
    requires
        lowerable_args(args, i),
        n + regs_args(args, i) <= 256,
    ensures
        single_assignment(lower_args(args, i, n).0, n as int, (n + regs_args(args, i)) as int),
    decreases args, args.len() - i,
{
    if 0 <= i < args.len() {
        law_lower_expr_registers(args[i], n);
        let n1 = n + regs_expr(args[i]);
        law_lower_expr_single_assignment(args[i], n);
        law_lower_args_single_assignment(args, i + 1, n1);
        lemma_single_assignment_concat(
            lower_expr(args[i], n).0,
            lower_args(args, i + 1, n1).0,
            n as int,
            n1 as int,
            (n + regs_args(args, i)) as int,
        );
    }
}

/// A whole lowered program writes each register at most once, all of them
/// handed out for it.
pub proof fn law_lower_stmts_single_assignment(ss: Seq<SpecStmt>, i: int, n: nat)
    requires
        lowerable_stmts(ss, i),
        n + regs_stmts(ss, i) <= 256,
    ensures
        single_assignment(lower_stmts(ss, i, n).0, n as int, (n + regs_stmts(ss, i)) as int),
    decreases ss.len() - i,
{
    if 0 <= i < ss.len() {
        let n1 = n + regs_stmt(ss[i]);
        match ss[i] {
            SpecStmt::Let(_, e) => {
                law_lower_expr_single_assignment(e, n);
                law_lower_expr_registers(e, n);
            },
            SpecStmt::Return(e) => {
                law_lower_expr_single_assignment(e, n);
                law_lower_expr_registers(e, n);
                let is = lower_expr(e, n).0;
                let ret = seq![SpecInstr::Ret(lower_expr(e, n).1)];
                assert(dest_of(ret[0]) is None);
                lemma_single_assignment_concat(is, ret, n as int, n1 as int, n1 as int);
                assert(is.push(SpecInstr::Ret(lower_expr(e, n).1)) == is + ret);
            },
            SpecStmt::Expression(_) => {},
        }
        law_lower_stmts_single_assignment(ss, i + 1, n1);
        lemma_single_assignment_concat(
            lower_stmt(ss[i], n).0,
            lower_stmts(ss, i + 1, n1).0,
            n as int,
            n1 as int,
            (n + regs_stmts(ss, i)) as int,
        );
    } else {
        assert(lower_stmts(ss, i, n).0 =~= Seq::<SpecInstr>::empty());
    }
}

/// Whether two expressions are the same but for the tokens of their infix
/// operators.
pub open spec fn same_but_operators(a: SpecExpr, b: SpecExpr) -> bool
    decreases a, 0int,
{
    match a {
        SpecExpr::Infix(_, l1, r1) => match b {
            SpecExpr::Infix(_, l2, r2) => same_but_operators(*l1, *l2) && same_but_operators(*r1, *r2),
            _ => false,
        },
        SpecExpr::Call { function: f1, arguments: a1 } => match b {
            SpecExpr::Call { function: f2, arguments: a2 } => f1 == f2 && a1.len() == a2.len()
                && same_args_but_operators(a1, a2, 0),
            _ => false,
        },
        _ => a == b,
    }
}

/// Whether `a[i..]` and `b[i..]` are the same but for infix operator tokens.
pub open spec fn same_args_but_operators(a: Seq<SpecExpr>, b: Seq<SpecExpr>, i: int) -> bool
    decreases a, a.len() - i,
{
    if 0 <= i < a.len() {
        i < b.len() && same_but_operators(a[i], b[i]) && same_args_but_operators(a, b, i + 1)
    } else {
        true
    }
}

/// Whether two statements are the same but for infix operator tokens.
pub open spec fn same_stmt_but_operators(a: SpecStmt, b: SpecStmt) -> bool {
    match (a, b) {
        (SpecStmt::Let(n1, e1), SpecStmt::Let(n2, e2)) => n1 == n2 && same_but_operators(e1, e2),
        (SpecStmt::Return(e1), SpecStmt::Return(e2)) => same_but_operators(e1, e2),
        (SpecStmt::Expression(e1), SpecStmt::Expression(e2)) => same_but_operators(e1, e2),
        _ => false,
    }
}

/// Whether two programs are the same but for infix operator tokens.
pub open spec fn same_program_but_operators(a: Seq<SpecStmt>, b: Seq<SpecStmt>) -> bool {
    &&& a.len() == b.len()
    &&& forall|i: int| 0 <= i < a.len() ==> #[trigger] same_stmt_but_operators(a[i], b[i])
}

/// Lowering ignores which infix operator an expression uses: expressions that
/// differ only in their operator tokens lower alike, and every infix
/// expression ends in an `Add` of its operands' registers.
pub proof fn law_lowering_ignores_operators(a: SpecExpr, b: SpecExpr, n: nat)
    requires
        same_but_operators(a, b),
    ensures
        lowerable_expr(a) == lowerable_expr(b),
        regs_expr(a) == regs_expr(b),
        lower_expr(a, n) == lower_expr(b, n),
    decreases a, 1int,
{
    match a {
        SpecExpr::Infix(_, l1, r1) => match b {
            SpecExpr::Infix(_, l2, r2) => {
                law_lowering_ignores_operators(*l1, *l2, n);
                law_lowering_ignores_operators(*r1, *r2, lower_expr(*l1, n).2);
            },
            _ => {},
        },
        SpecExpr::Call { function: f1, arguments: a1 } => match b {
            SpecExpr::Call { function: f2, arguments: a2 } => {
                law_lowering_args_ignores_operators(a1, a2, 0, n);
            },
            _ => {},
        },
        _ => {},
    }
}

/// The arguments of calls that differ only in operator tokens lower alike.
pub proof fn law_lowering_args_ignores_operators(a: Seq<SpecExpr>, b: Seq<SpecExpr>, i: int, n: nat)
    requires
        a.len() == b.len(),
        same_args_but_operators(a, b, i),
    ensures
        lowerable_args(a, i) == lowerable_args(b, i),
        regs_args(a, i) == regs_args(b, i),
        lower_args(a, i, n) == lower_args(b, i, n),
    decreases a, a.len() - i,
{
    if 0 <= i < a.len() {
        law_lowering_ignores_operators(a[i], b[i], n);
        law_lowering_args_ignores_operators(a, b, i + 1, lower_expr(a[i], n).2);
    }
}

/// Programs that differ only in infix operator tokens can be lowered alike,
/// take as many registers, and lower to the same instructions.
pub proof fn law_program_lowering_ignores_operators(a: Seq<SpecStmt>, b: Seq<SpecStmt>, i: int, n: nat)
    requires
        same_program_but_operators(a, b),
    ensures
        lowerable_stmts(a, i) == lowerable_stmts(b, i),
        regs_stmts(a, i) == regs_stmts(b, i),
        lower_stmts(a, i, n) == lower_stmts(b, i, n),
    decreases a.len() - i,
{
    if 0 <= i < a.len() {
        assert(same_stmt_but_operators(a[i], b[i]));
        match (a[i], b[i]) {
            (SpecStmt::Let(_, e1), SpecStmt::Let(_, e2)) => law_lowering_ignores_operators(e1, e2, n),
            (SpecStmt::Return(e1), SpecStmt::Return(e2)) => law_lowering_ignores_operators(e1, e2, n),
            (SpecStmt::Expression(e1), SpecStmt::Expression(e2)) => law_lowering_ignores_operators(e1, e2, n),
            _ => {},
        }
        law_program_lowering_ignores_operators(a, b, i + 1, lower_stmt(a[i], n).1);
    }
}

/// Every infix expression, whatever its operator, lowers to its operands'
/// instructions followed by an `Add` of their registers into a fresh register.
pub proof fn law_infix_lowers_to_add(op: SpecToken, l: SpecExpr, r: SpecExpr, n: nat)
    ensures
        ({
            let (il, ol, n1) = lower_expr(l, n);
            let (ir, or, n2) = lower_expr(r, n1);
            lower_expr(SpecExpr::Infix(op, Box::new(l), Box::new(r)), n) == (
                il + ir + seq![SpecInstr::Add(SpecOperand::Register(n2 as u8), ol, or)],
                SpecOperand::Register(n2 as u8),
                n2 + 1,
            )
        }),
{
}

proof fn lemma_lower_stmts_shift(a: Seq<SpecStmt>, b: Seq<SpecStmt>, j: int, n: nat)
    requires
        0 <= j <= b.len(),
    ensures
        lower_stmts(a + b, a.len() + j, n) == lower_stmts(b, j, n),
        lowerable_stmts(a + b, a.len() + j) == lowerable_stmts(b, j),
        regs_stmts(a + b, a.len() + j) == regs_stmts(b, j),
    decreases b.len() - j,
{
    if j < b.len() {
        assert((a + b)[a.len() + j] == b[j]);
        lemma_lower_stmts_shift(a, b, j + 1, lower_stmt(b[j], n).1);
        lemma_lower_stmts_shift(a, b, j + 1, n);
    }
}

proof fn lemma_lower_stmts_concat_from(a: Seq<SpecStmt>, b: Seq<SpecStmt>, i: int, n: nat)
    requires
        0 <= i <= a.len(),
    ensures
        ({
            let (ia, m) = lower_stmts(a, i, n);
            let (ib, k) = lower_stmts(b, 0, m);
            lower_stmts(a + b, i, n) == (ia + ib, k)
        }),
        lowerable_stmts(a + b, i) == (lowerable_stmts(a, i) && lowerable_stmts(b, 0)),
        regs_stmts(a + b, i) == regs_stmts(a, i) + regs_stmts(b, 0),
    decreases a.len() - i,
{
    if i < a.len() {
        assert((a + b)[i] == a[i]);
        let n1 = lower_stmt(a[i], n).1;
        lemma_lower_stmts_concat_from(a, b, i + 1, n1);
        let (i1, _) = lower_stmt(a[i], n);
        let (ia, m) = lower_stmts(a, i + 1, n1);
        let (ib, k) = lower_stmts(b, 0, m);
        assert(i1 + (ia + ib) =~= (i1 + ia) + ib);
    } else {
        lemma_lower_stmts_shift(a, b, 0, n);
        let (ib, k) = lower_stmts(b, 0, n);
        assert(Seq::<SpecInstr>::empty() + ib =~= ib);
    }
}

/// Generating two programs one after the other is generating their joined
/// statements once: the second starts from the register count the first
/// left, its instructions follow the first's, and the joined program can be
/// generated exactly when both can, with the registers of both.
pub proof fn law_lower_joined_programs(a: Seq<SpecStmt>, b: Seq<SpecStmt>, n: nat)
    ensures
        ({
            let (ia, m) = lower_stmts(a, 0, n);
            let (ib, k) = lower_stmts(b, 0, m);
            lower_stmts(a + b, 0, n) == (ia + ib, k)
        }),
        lowerable_stmts(a + b, 0) == (lowerable_stmts(a, 0) && lowerable_stmts(b, 0)),
        regs_stmts(a + b, 0) == regs_stmts(a, 0) + regs_stmts(b, 0),
{
    lemma_lower_stmts_concat_from(a, b, 0, n);
}

/// Lowering `args[i..]` gives one operand per argument.
proof fn lemma_lower_args_len(args: Seq<SpecExpr>, i: int, m: nat)
    requires
        0 <= i <= args.len(),
    ensures
        lower_args(args, i, m).1.len() == args.len() - i,
    decreases args.len() - i,
{
    if i < args.len() {
        lemma_lower_args_len(args, i + 1, lower_expr(args[i], m).2);
    }
}

/// The operand lowering `args[i..]` gives for argument `k` is the operand
/// holding the value of `args[k]`, lowered after the arguments before it.
proof fn lemma_lower_args_operand(args: Seq<SpecExpr>, i: int, m: nat, k: int)
    requires
        lowerable_args(args, i),
        0 <= i <= k < args.len(),
    ensures
        regs_args(args, k) <= regs_args(args, i),
        lowerable_expr(args[k]),
        lower_args(args, i, m).1[k - i] == lower_expr(args[k], (m + regs_args(args, i) - regs_args(args, k)) as nat).1,
    decreases k - i,
{
    if i < k {
        law_lower_expr_registers(args[i], m);
        let n1 = lower_expr(args[i], m).2;
        lemma_lower_args_operand(args, i + 1, n1, k);
        lemma_lower_args_len(args, i + 1, n1);
        let o2 = lower_args(args, i + 1, n1).1;
        assert((seq![lower_expr(args[i], m).1] + o2)[k - i] == o2[k - i - 1]);
    }
}

/// A call passes, for each argument, the operand that holds the argument's
/// value: argument `k` is lowered once the arguments before it have taken
/// their registers, and its value is in the last register it takes.
pub proof fn law_call_passes_argument_values(args: Seq<SpecExpr>, n: nat, k: int)
    requires
        lowerable_args(args, 0),
        0 <= k < args.len(),
    ensures
        lower_args(args, 0, n).1.len() == args.len(),
        lower_args(args, 0, n).1[k] == lower_expr(args[k], (n + regs_args(args, 0) - regs_args(args, k)) as nat).1,
        lower_args(args, 0, n).1[k] == SpecOperand::Register((n + regs_args(args, 0) - regs_args(args, k + 1) - 1) as u8),
{
    lemma_lower_args_len(args, 0, n);
    lemma_lower_args_operand(args, 0, n, k);
    let m = (n + regs_args(args, 0) - regs_args(args, k)) as nat;
    law_lower_expr_registers(args[k], m);
    assert(regs_args(args, k) == regs_expr(args[k]) + regs_args(args, k + 1));
}

} // verus!
