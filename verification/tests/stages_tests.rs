use ryha::ast::{Expression, Program, Statement};
use ryha::codegen::CodeGenerator;
use ryha::driver::{compile, CompileError};
use ryha::ir::{IRGenerator, Instruction, Operand};
use ryha::lexer::{Lexer, Token};
use ryha::optimizer::Optimizer;
use ryha::parser::Parser;
use ryha::semantic::{SemanticAnalyzer, Symbol, SymbolTable};

fn parse(input: &str) -> Program {
    let mut parser = Parser::new(Lexer::new(input));
    let program = parser.parse_program();
    assert!(parser.errors().is_empty());
    program
}

fn analyze(input: &str) -> Vec<String> {
    let program = parse(input);
    let mut analyzer = SemanticAnalyzer::new();
    analyzer.analyze(&program);
    analyzer.errors().to_vec()
}

#[test]
fn symbol_table_resolves_after_define() {
    let mut table = SymbolTable::new();
    assert_eq!(table.resolve("x"), None);
    table.define("x".to_string(), Symbol::Variable);
    assert_eq!(table.resolve("x"), Some(Symbol::Variable));
    assert_eq!(table.resolve("y"), None);
    table.define("x".to_string(), Symbol::Function);
    assert_eq!(table.resolve("x"), Some(Symbol::Function));
}

#[test]
fn enclosed_table_sees_and_shadows_outer() {
    let mut outer = SymbolTable::new();
    outer.define("a".to_string(), Symbol::Variable);
    outer.define("f".to_string(), Symbol::Function);
    let mut inner = SymbolTable::new_enclosed(outer);
    assert_eq!(inner.resolve("a"), Some(Symbol::Variable));
    assert_eq!(inner.resolve("f"), Some(Symbol::Function));
    inner.define("f".to_string(), Symbol::Variable);
    assert_eq!(inner.resolve("f"), Some(Symbol::Variable));
    assert_eq!(inner.resolve("zzz"), None);
}

#[test]
fn reports_undefined_variables_in_order() {
    assert_eq!(
        analyze("let x = y; x + z;"),
        vec!["undefined variable: y".to_string(), "undefined variable: z".to_string()]
    );
}

#[test]
fn let_value_is_analysed_before_the_name_is_defined() {
    assert_eq!(analyze("let x = x;"), vec!["undefined variable: x".to_string()]);
}

#[test]
fn function_parameters_are_in_scope_only_in_the_body() {
    assert_eq!(
        analyze("let f = fn(a) { a; let b = a; b }; a; b;"),
        vec!["undefined variable: a".to_string(), "undefined variable: b".to_string()]
    );
}

#[test]
fn block_definitions_do_not_escape() {
    assert_eq!(
        analyze("if (true) { let t = 1; t } else { t }; t;"),
        vec!["undefined variable: t".to_string(), "undefined variable: t".to_string()]
    );
}

#[test]
fn no_errors_when_every_name_is_defined() {
    assert!(analyze("let a = 1; let b = a * 2; return -b;").is_empty());
}

#[test]
fn lowers_lets_and_returns() {
    let program = parse("let x = 1 + 2; return 7;");
    let mut ir = IRGenerator::new();
    ir.generate(&program);
    assert_eq!(
        ir.instructions().to_vec(),
        vec![
            Instruction::Load(Operand::Register(0), Operand::Immediate(1)),
            Instruction::Load(Operand::Register(1), Operand::Immediate(2)),
            Instruction::Add(Operand::Register(2), Operand::Register(0), Operand::Register(1)),
            Instruction::Load(Operand::Register(3), Operand::Immediate(7)),
            Instruction::Ret(Operand::Register(3)),
        ]
    );
}

#[test]
fn every_infix_operator_lowers_to_add() {
    let program = parse("return 5 * 6;");
    let mut ir = IRGenerator::new();
    ir.generate(&program);
    assert_eq!(
        ir.instructions().to_vec(),
        vec![
            Instruction::Load(Operand::Register(0), Operand::Immediate(5)),
            Instruction::Load(Operand::Register(1), Operand::Immediate(6)),
            Instruction::Add(Operand::Register(2), Operand::Register(0), Operand::Register(1)),
            Instruction::Ret(Operand::Register(2)),
        ]
    );
}

#[test]
fn lowers_calls_with_argument_registers() {
    let call = Expression::Call {
        function: Box::new(Expression::Ident("f".to_string())),
        arguments: vec![Expression::IntLiteral(4), Expression::IntLiteral(9)],
    };
    let program = Program { statements: vec![Statement::Return(call)] };
    let mut ir = IRGenerator::new();
    ir.generate(&program);
    assert_eq!(
        ir.instructions().to_vec(),
        vec![
            Instruction::Load(Operand::Register(0), Operand::Immediate(4)),
            Instruction::Load(Operand::Register(1), Operand::Immediate(9)),
            Instruction::Call(
                Operand::Label("f".to_string()),
                vec![Operand::Register(0), Operand::Register(1)]
            ),
            Instruction::Ret(Operand::Register(2)),
        ]
    );
}

#[test]
fn folds_additions_of_two_loads() {
    let input = vec![
        Instruction::Load(Operand::Register(0), Operand::Immediate(1)),
        Instruction::Load(Operand::Register(1), Operand::Immediate(2)),
        Instruction::Add(Operand::Register(2), Operand::Register(0), Operand::Register(1)),
        Instruction::Ret(Operand::Register(2)),
    ];
    let mut opt = Optimizer::new();
    opt.optimize(&input);
    assert_eq!(
        opt.instructions().to_vec(),
        vec![
            Instruction::Load(Operand::Register(2), Operand::Immediate(3)),
            Instruction::Ret(Operand::Register(2)),
        ]
    );
    assert!(opt.instructions().len() <= input.len());
}

#[test]
fn leaves_programs_without_foldable_additions_alone() {
    let input = vec![
        Instruction::Load(Operand::Register(0), Operand::Immediate(1)),
        Instruction::Add(Operand::Register(1), Operand::Register(0), Operand::Register(0)),
        Instruction::Ret(Operand::Register(1)),
    ];
    let mut opt = Optimizer::new();
    opt.optimize(&input);
    assert_eq!(opt.instructions().to_vec(), input);
}

#[test]
fn folding_pops_what_was_emitted_last() {
    // A folded addition directly after another fold removes the folded load
    // and the output before it.
    let input = vec![
        Instruction::Ret(Operand::Register(9)),
        Instruction::Load(Operand::Register(0), Operand::Immediate(1)),
        Instruction::Load(Operand::Register(1), Operand::Immediate(2)),
        Instruction::Add(Operand::Register(2), Operand::Register(0), Operand::Register(1)),
        Instruction::Add(Operand::Register(3), Operand::Register(2), Operand::Register(2)),
    ];
    let mut opt = Optimizer::new();
    opt.optimize(&input);
    assert_eq!(
        opt.instructions().to_vec(),
        vec![
            Instruction::Ret(Operand::Register(9)),
            Instruction::Load(Operand::Register(2), Operand::Immediate(3)),
            Instruction::Add(Operand::Register(3), Operand::Register(2), Operand::Register(2)),
        ]
    );
}

#[test]
fn generates_assembly_text() {
    let instrs = vec![
        Instruction::Load(Operand::Register(0), Operand::Immediate(-5)),
        Instruction::Load(Operand::Register(1), Operand::Label("k".to_string())),
        Instruction::Add(Operand::Register(2), Operand::Register(0), Operand::Register(1)),
        Instruction::Call(Operand::Label("f".to_string()), vec![Operand::Register(2)]),
        Instruction::Ret(Operand::Register(2)),
    ];
    let mut cg = CodeGenerator::new();
    cg.generate(&instrs);
    assert_eq!(
        cg.assembly(),
        ".global main\nmain:\nmov r0, -5\nmov r1, k\nmov r2, r0\nadd r2, r1\nmov rdi0, r2\ncall f\nmov rax, r2\nret\n"
    );
}

#[test]
fn second_pass_saves_and_restores_registers_of_the_first() {
    let mut cg = CodeGenerator::new();
    cg.generate(&[Instruction::Ret(Operand::Register(3)), Instruction::Ret(Operand::Register(1))]);
    cg.generate(&[]);
    assert_eq!(
        cg.assembly(),
        ".global main\nmain:\nmov rax, r3\nret\nmov rax, r1\nret\n.global main\nmain:\npush r13\npush r15\npop r15\npop r13\n"
    );
}

#[test]
fn whole_pipeline_compiles_a_program() {
    let program = parse("let a = 2; return 40 + 2;");
    let mut analyzer = SemanticAnalyzer::new();
    analyzer.analyze(&program);
    assert!(analyzer.errors().is_empty());
    let mut ir = IRGenerator::new();
    ir.generate(&program);
    let mut cg = CodeGenerator::new();
    cg.generate(ir.instructions());
    assert_eq!(
        cg.assembly(),
        ".global main\nmain:\nmov r0, 2\nmov r1, 40\nmov r2, 2\nmov r3, r1\nadd r3, r2\nmov rax, r3\nret\n"
    );
    let _ = Token::Eof;
}

#[test]
fn every_register_is_written_once() {
    let program = parse("let a = 1 + 2 * 3; let b = (4 + 5) + 6; return 7 - 8;");
    let mut ir = IRGenerator::new();
    ir.generate(&program);
    let mut written: Vec<u8> = Vec::new();
    for i in ir.instructions() {
        match i {
            Instruction::Load(Operand::Register(d), _) | Instruction::Add(Operand::Register(d), _, _) => {
                assert!(!written.contains(d));
                written.push(*d);
            }
            _ => {}
        }
    }
    assert_eq!(written.len(), 13);
    assert!(written.iter().all(|r| *r < 13));
}

#[test]
fn can_generate_rejects_unsupported_programs() {
    let ir = IRGenerator::new();
    assert!(ir.can_generate(&parse("let x = 1; return x + 2;")) == false);
    assert!(ir.can_generate(&parse("5;")) == false);
    assert!(ir.can_generate(&parse("let x = 1; return 2 + 3;")));
    let cg = CodeGenerator::new();
    assert!(!cg.can_generate(&[Instruction::Store(Operand::Register(0), Operand::Register(1))]));
    assert!(!cg.can_generate(&[Instruction::Load(Operand::Immediate(0), Operand::Immediate(1))]));
    assert!(cg.can_generate(&[Instruction::Load(Operand::Register(0), Operand::Label("x".to_string()))]));
}

#[test]
fn can_generate_counts_registers() {
    let mut source = String::new();
    for _ in 0..127 {
        source.push_str("let a = 1 + 1; ");
    }
    let program = parse(&source);
    let ir = IRGenerator::new();
    assert!(!ir.can_generate(&program));
    let program = parse("let a = 1 + 1; let b = 1;");
    assert!(ir.can_generate(&program));
}

#[test]
fn can_optimize_detects_overflowing_folds() {
    let opt = Optimizer::new();
    let overflow = vec![
        Instruction::Load(Operand::Register(0), Operand::Immediate(i64::MAX)),
        Instruction::Load(Operand::Register(1), Operand::Immediate(1)),
        Instruction::Add(Operand::Register(2), Operand::Register(0), Operand::Register(1)),
    ];
    assert!(!opt.can_optimize(&overflow));
    let fine = vec![
        Instruction::Load(Operand::Register(0), Operand::Immediate(i64::MAX)),
        Instruction::Load(Operand::Register(1), Operand::Immediate(-1)),
        Instruction::Add(Operand::Register(2), Operand::Register(0), Operand::Register(1)),
    ];
    assert!(opt.can_optimize(&fine));
}

#[test]
fn operator_tokens_do_not_change_lowering() {
    let mut a = IRGenerator::new();
    a.generate(&parse("let z = 1 - 2 * 3; return 4 < 5;"));
    let mut b = IRGenerator::new();
    b.generate(&parse("let z = 1 + 2 / 3; return 4 == 5;"));
    assert_eq!(a.instructions().to_vec(), b.instructions().to_vec());
}

#[test]
fn undefined_messages_name_identifiers_of_the_program() {
    let errors = analyze("let f = fn(p) { if (p) { q } else { r } }; s;");
    assert_eq!(
        errors,
        vec![
            "undefined variable: q".to_string(),
            "undefined variable: r".to_string(),
            "undefined variable: s".to_string(),
        ]
    );
}

#[test]
fn compile_produces_assembly() {
    assert_eq!(
        compile("let a = 2; return 40 + 2;").unwrap(),
        ".global main\nmain:\nmov r0, 2\nmov r1, 40\nmov r2, 2\nmov r3, r1\nadd r3, r2\nmov rax, r3\nret\n"
    );
}

#[test]
fn compile_stops_at_the_first_failing_stage() {
    match compile("let = 1; y;") {
        Err(CompileError::Parser(e)) => {
            assert_eq!(e, vec!["expected next token to be Ident(\"\"), got Assign instead".to_string()])
        }
        _ => panic!("expected parser errors"),
    }
    match compile("return y + z;") {
        Err(CompileError::Semantic(e)) => assert_eq!(
            e,
            vec!["undefined variable: y".to_string(), "undefined variable: z".to_string()]
        ),
        _ => panic!("expected semantic errors"),
    }
    assert!(matches!(compile("let x = 1; x;"), Err(CompileError::Unsupported)));
}

#[test]
fn generating_twice_is_generating_the_joined_program() {
    let p1 = parse("let a = 1 + 2;");
    let p2 = parse("return 3;");
    let mut g1 = IRGenerator::new();
    g1.generate(&p1);
    g1.generate(&p2);
    let mut g2 = IRGenerator::new();
    g2.generate(&parse("let a = 1 + 2; return 3;"));
    assert_eq!(g1.instructions().to_vec(), g2.instructions().to_vec());
}

#[test]
fn analysing_twice_is_analysing_the_joined_program() {
    let mut a1 = SemanticAnalyzer::new();
    a1.analyze(&parse("let a = 1; b;"));
    a1.analyze(&parse("a; c;"));
    let mut a2 = SemanticAnalyzer::new();
    a2.analyze(&parse("let a = 1; b; a; c;"));
    assert_eq!(a1.errors().to_vec(), a2.errors().to_vec());
    assert_eq!(
        a1.errors().to_vec(),
        vec!["undefined variable: b".to_string(), "undefined variable: c".to_string()]
    );
}
