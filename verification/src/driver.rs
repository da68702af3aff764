//! The whole compilation of a source text: parse, check names, lower, and
//! emit assembly, stopping at the first stage that reports errors.
use vstd::prelude::*;
use vstd::string::*;
use crate::ast::{SpecExpr, SpecStmt, strings_view};
use crate::lexer::{Lexer, tokenize};
use crate::parser::{Parser, PState, sp_program};
use crate::semantic::{SemanticAnalyzer, Scope, sem_stmts};
use crate::ir::{
    IRGenerator, SpecInstr, SpecOperand, lowerable_expr, lowerable_args, lowerable_stmts, lowerable_stmt,
    lower_expr, lower_args, lower_stmt, lower_stmts, regs_stmts, instrs_view, law_lower_expr_registers,
};
use crate::codegen::{CodeGenerator, emittable, all_emittable, all_regs, is_reg, pass_text};

verus! {

/// Why a source text does not compile.
#[derive(Debug)]
pub enum CompileError {
    /// The parser's messages.
    Parser(Vec<String>),
    /// The name checker's messages.
    Semantic(Vec<String>),
    /// The program has a statement or expression that cannot be lowered, or
    /// needs more than 255 registers.
    Unsupported,
}

/// The statements and final parse state of a source text.
pub open spec fn parse_source(src: Seq<char>) -> (Seq<SpecStmt>, PState) {
    sp_program(tokenize(src), PState { pos: 0, errs: Seq::empty() }, Seq::empty())
}

/// The name checker's messages for a parsed program, analysed in one empty
/// scope.
pub open spec fn name_errors(prog: Seq<SpecStmt>) -> Seq<Seq<char>> {
    sem_stmts(prog, 0, seq![Scope::empty()]).0
}

/// Whether a program can be lowered within the 255 registers.
pub open spec fn lowerable_program(prog: Seq<SpecStmt>) -> bool {
    lowerable_stmts(prog, 0) && regs_stmts(prog, 0) <= 255
}

/// The assembly of a program that can be lowered: one generation pass, with
/// no registers used before it.
pub open spec fn program_assembly(prog: Seq<SpecStmt>) -> Seq<char> {
    pass_text(Set::empty(), lower_stmts(prog, 0, 0).0)
}

/// The copy of a sequence of strings.
fn copy_strings(v: &[String]) -> (r: Vec<String>)
    ensures
        strings_view(r@) == strings_view(v@),
{
    let mut r: Vec<String> = Vec::new();
    let mut i: usize = 0;
    while i < v.len()
        invariant
            i <= v@.len(),
            strings_view(r@) == strings_view(v@).take(i as int),
        decreases v@.len() - i,
    {
        let ghost prev = r@;
        r.push(v[i].clone());
        assert(strings_view(r@) =~= strings_view(prev).push(v@[i as int]@));
        i = i + 1;
        assert(strings_view(r@) =~= strings_view(v@).take(i as int));
    }
    assert(strings_view(v@).take(i as int) =~= strings_view(v@));
    r
}

/// Compiles `source` to assembly. The parser's messages, when there are any,
/// are the error; otherwise the name checker's; otherwise the program is
/// lowered from register 0 and emitted in one pass, unless it cannot be
/// lowered.
pub fn compile(source: &str) -> (r: Result<String, CompileError>)
    ensures
        ({
            let (prog, st) = parse_source(source@);
            match r {
                Err(CompileError::Parser(v)) => st.errs.len() > 0 && strings_view(v@) == st.errs,
                Err(CompileError::Semantic(v)) => st.errs.len() == 0 && name_errors(prog).len() > 0
                    && strings_view(v@) == name_errors(prog),
                Err(CompileError::Unsupported) => st.errs.len() == 0 && name_errors(prog).len() == 0
                    && !lowerable_program(prog),
                Ok(text) => st.errs.len() == 0 && name_errors(prog).len() == 0 && lowerable_program(prog)
                    && text@ == program_assembly(prog),
            }
        }),
{
    let lexer = Lexer::new(source);
    let mut parser = Parser::new(lexer);
    let program = parser.parse_program();
    if parser.errors().len() > 0 {
        return Err(CompileError::Parser(copy_strings(parser.errors())));
    }

    let mut analyzer = SemanticAnalyzer::new();
    analyzer.analyze(&program);
    if analyzer.errors().len() > 0 {
        return Err(CompileError::Semantic(copy_strings(analyzer.errors())));
    }

    let mut ir_generator = IRGenerator::new();
    if !ir_generator.can_generate(&program) {
        return Err(CompileError::Unsupported);
    }
    ir_generator.generate(&program);

    let mut codegen = CodeGenerator::new();
    let instructions = ir_generator.instructions();
    proof {
        law_lowered_programs_emit(program@, 0);
        assert(instrs_view(instructions@) =~= lower_stmts(program@, 0, 0).0);
    }
    codegen.generate(instructions);
    Ok(String::from_str(codegen.assembly()))
}

proof fn lemma_all_emittable_iff(s: Seq<SpecInstr>, i: int)
    requires
        0 <= i <= s.len(),
    ensures
        all_emittable(s, i) <==> (forall|k: int| i <= k < s.len() ==> emittable(#[trigger] s[k])),
    decreases s.len() - i,
{
    if i < s.len() {
        lemma_all_emittable_iff(s, i + 1);
    }
}

proof fn lemma_all_regs_iff(s: Seq<SpecOperand>, i: int)
    requires
        0 <= i <= s.len(),
    ensures
        all_regs(s, i) <==> (forall|k: int| i <= k < s.len() ==> is_reg(#[trigger] s[k])),
    decreases s.len() - i,
{
    if i < s.len() {
        lemma_all_regs_iff(s, i + 1);
    }
}

/// Whether every instruction of `s` can be turned into assembly.
spec fn each_emittable(s: Seq<SpecInstr>) -> bool {
    forall|k: int| 0 <= k < s.len() ==> emittable(#[trigger] s[k])
}

proof fn lemma_each_emittable_concat(a: Seq<SpecInstr>, b: Seq<SpecInstr>)
    requires
        each_emittable(a),
        each_emittable(b),
    ensures
        each_emittable(a + b),
{
    assert forall|k: int| 0 <= k < (a + b).len() implies emittable(#[trigger] (a + b)[k]) by {
        if k < a.len() {
            assert((a + b)[k] == a[k]);
        } else {
            assert((a + b)[k] == b[k - a.len()]);
        }
    }
}

proof fn lemma_lowered_expr_emittable(e: SpecExpr, n: nat)
    requires
        lowerable_expr(e),
    ensures
        each_emittable(lower_expr(e, n).0),
        lower_expr(e, n).1 is Register,
    decreases e, 1int,
{
    law_lower_expr_registers(e, n);
    match e {
        SpecExpr::IntLiteral(v) => {
            assert(emittable(lower_expr(e, n).0[0]));
        },
        SpecExpr::Infix(_, l, r) => {
            let (il, ol, n1) = lower_expr(*l, n);
            let (ir, or, n2) = lower_expr(*r, n1);
            lemma_lowered_expr_emittable(*l, n);
            lemma_lowered_expr_emittable(*r, n1);
            let last = seq![SpecInstr::Add(SpecOperand::Register(n2 as u8), ol, or)];
            assert(emittable(last[0]));
            lemma_each_emittable_concat(il, ir);
            lemma_each_emittable_concat(il + ir, last);
        },
        SpecExpr::Call { function, arguments } => {
            let (ia, ops, n1) = lower_args(arguments, 0, n);
            lemma_lowered_args_emittable(arguments, 0, n);
            lemma_all_regs_iff(ops, 0);
            let name = match *function {
                SpecExpr::Ident(s) => s,
                _ => Seq::empty(),
            };
            let last = seq![SpecInstr::Call(SpecOperand::Label(name), ops)];
            assert(emittable(last[0]));
            lemma_each_emittable_concat(ia, last);
        },
        _ => {},
    }
}

proof fn lemma_lowered_args_emittable(args: Seq<SpecExpr>, i: int, n: nat)
    requires
        lowerable_args(args, i),
    ensures
        each_emittable(lower_args(args, i, n).0),
        forall|k: int| 0 <= k < lower_args(args, i, n).1.len() ==> is_reg(#[trigger] lower_args(args, i, n).1[k]),
    decreases args, args.len() - i,
{
    if 0 <= i < args.len() {
        let (i1, o1, n1) = lower_expr(args[i], n);
        let (i2, o2, n2) = lower_args(args, i + 1, n1);
        lemma_lowered_expr_emittable(args[i], n);
        lemma_lowered_args_emittable(args, i + 1, n1);
        lemma_each_emittable_concat(i1, i2);
        let ops = seq![o1] + o2;
        assert forall|k: int| 0 <= k < ops.len() implies is_reg(#[trigger] ops[k]) by {
            if k > 0 {
                assert(ops[k] == o2[k - 1]);
            }
        }
    }
}

proof fn lemma_lowered_stmts_emittable(ss: Seq<SpecStmt>, i: int, n: nat)
    requires
        lowerable_stmts(ss, i),
    ensures
        each_emittable(lower_stmts(ss, i, n).0),
    decreases ss.len() - i,
{
    if 0 <= i < ss.len() {
        let (i1, n1) = lower_stmt(ss[i], n);
        match ss[i] {
            SpecStmt::Let(_, e) => lemma_lowered_expr_emittable(e, n),
            SpecStmt::Return(e) => {
                lemma_lowered_expr_emittable(e, n);
                let is = lower_expr(e, n).0;
                let ret = seq![SpecInstr::Ret(lower_expr(e, n).1)];
                assert(emittable(ret[0]));
                lemma_each_emittable_concat(is, ret);
                assert(is.push(SpecInstr::Ret(lower_expr(e, n).1)) == is + ret);
            },
            SpecStmt::Expression(_) => {},
        }
        lemma_lowered_stmts_emittable(ss, i + 1, n1);
        lemma_each_emittable_concat(i1, lower_stmts(ss, i + 1, n1).0);
    }
}

/// Every instruction that lowering produces can be turned into assembly.
pub proof fn law_lowered_programs_emit(ss: Seq<SpecStmt>, n: nat)
    requires
        lowerable_stmts(ss, 0),
    ensures
        all_emittable(lower_stmts(ss, 0, n).0, 0),
{
    lemma_lowered_stmts_emittable(ss, 0, n);
    lemma_all_emittable_iff(lower_stmts(ss, 0, n).0, 0);
}

} // verus!
