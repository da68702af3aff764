//! The syntax tree of Ryha programs.
use vstd::prelude::*;
use crate::lexer::{Token, SpecToken};

verus! {

/// An expression.
#[derive(Debug)]
pub enum Expression {
    Ident(String),
    IntLiteral(i64),
    StringLiteral(String),
    BoolLiteral(bool),
    Prefix(Token, Box<Expression>),
    Infix(Token, Box<Expression>, Box<Expression>),
    If {
        condition: Box<Expression>,
        consequence: Vec<Statement>,
        alternative: Option<Vec<Statement>>,
    },
    Function {
        params: Vec<String>,
        body: Vec<Statement>,
    },
    Call {
        function: Box<Expression>,
        arguments: Vec<Expression>,
    },
}

/// A statement.
#[derive(Debug)]
pub enum Statement {
    Let(String, Expression),
    Return(Expression),
    Expression(Expression),
}

/// A whole program: its statements in order.
#[derive(Debug)]
pub struct Program {
    pub statements: Vec<Statement>,
}

/// The mathematical value of an expression.
pub enum SpecExpr {
    Ident(Seq<char>),
    IntLiteral(i64),
    StringLiteral(Seq<char>),
    BoolLiteral(bool),
    Prefix(SpecToken, Box<SpecExpr>),
    Infix(SpecToken, Box<SpecExpr>, Box<SpecExpr>),
    If {
        condition: Box<SpecExpr>,
        consequence: Seq<SpecStmt>,
        alternative: Option<Seq<SpecStmt>>,
    },
    Function {
        params: Seq<Seq<char>>,
        body: Seq<SpecStmt>,
    },
    Call {
        function: Box<SpecExpr>,
        arguments: Seq<SpecExpr>,
    },
}

/// The mathematical value of a statement.
pub enum SpecStmt {
    Let(Seq<char>, SpecExpr),
    Return(SpecExpr),
    Expression(SpecExpr),
}

/// The views of a sequence of strings.
pub open spec fn strings_view(v: Seq<String>) -> Seq<Seq<char>> {
    v.map_values(|s: String| s@)
}

/// The mathematical value of an expression.
pub open spec fn expr_view(e: Expression) -> SpecExpr
    decreases e,
{
    match e {
        Expression::Ident(s) => SpecExpr::Ident(s@),
        Expression::IntLiteral(i) => SpecExpr::IntLiteral(i),
        Expression::StringLiteral(s) => SpecExpr::StringLiteral(s@),
        Expression::BoolLiteral(b) => SpecExpr::BoolLiteral(b),
        Expression::Prefix(t, r) => SpecExpr::Prefix(t@, Box::new(expr_view(*r))),
        Expression::Infix(t, l, r) => SpecExpr::Infix(
            t@,
            Box::new(expr_view(*l)),
            Box::new(expr_view(*r)),
        ),
        Expression::If { condition, consequence, alternative } => SpecExpr::If {
            condition: Box::new(expr_view(*condition)),
            consequence: stmt_seq_view(consequence@),
            alternative: match alternative {
                Some(a) => Some(stmt_seq_view(a@)),
                None => None,
            },
        },
        Expression::Function { params, body } => SpecExpr::Function {
            params: strings_view(params@),
            body: stmt_seq_view(body@),
        },
        Expression::Call { function, arguments } => SpecExpr::Call {
            function: Box::new(expr_view(*function)),
            arguments: expr_seq_view(arguments@),
        },
    }
}

/// The mathematical value of a statement.
pub open spec fn stmt_view(s: Statement) -> SpecStmt
    decreases s,
{
    match s {
        Statement::Let(n, e) => SpecStmt::Let(n@, expr_view(e)),
        Statement::Return(e) => SpecStmt::Return(expr_view(e)),
        Statement::Expression(e) => SpecStmt::Expression(expr_view(e)),
    }
}

/// The views of a sequence of statements.
pub open spec fn stmt_seq_view(v: Seq<Statement>) -> Seq<SpecStmt>
    decreases v,
{
    Seq::new(
        v.len(),
        |i: int|
            if 0 <= i < v.len() {
                stmt_view(v[i])
            } else {
                SpecStmt::Expression(SpecExpr::BoolLiteral(false))
            },
    )
}

/// The views of a sequence of expressions.
pub open spec fn expr_seq_view(v: Seq<Expression>) -> Seq<SpecExpr>
    decreases v,
{
    Seq::new(
        v.len(),
        |i: int|
            if 0 <= i < v.len() {
                expr_view(v[i])
            } else {
                SpecExpr::BoolLiteral(false)
            },
    )
}

impl View for Expression {
    type V = SpecExpr;

    open spec fn view(&self) -> SpecExpr {
        expr_view(*self)
    }
}

impl View for Statement {
    type V = SpecStmt;

    open spec fn view(&self) -> SpecStmt {
        stmt_view(*self)
    }
}

impl View for Program {
    type V = Seq<SpecStmt>;

    open spec fn view(&self) -> Seq<SpecStmt> {
        stmt_seq_view(self.statements@)
    }
}

/// Pushing a statement extends the view of the sequence by its view.
pub proof fn lemma_stmt_seq_push(v: Seq<Statement>, s: Statement)
    ensures
        stmt_seq_view(v.push(s)) == stmt_seq_view(v).push(stmt_view(s)),
{
    assert(stmt_seq_view(v.push(s)) =~= stmt_seq_view(v).push(stmt_view(s)));
}

/// Pushing an expression extends the view of the sequence by its view.
pub proof fn lemma_expr_seq_push(v: Seq<Expression>, e: Expression)
    ensures
        expr_seq_view(v.push(e)) == expr_seq_view(v).push(expr_view(e)),
{
    assert(expr_seq_view(v.push(e)) =~= expr_seq_view(v).push(expr_view(e)));
}

/// Pushing a string extends the view of the sequence by its view.
pub proof fn lemma_strings_push(v: Seq<String>, s: String)
    ensures
        strings_view(v.push(s)) == strings_view(v).push(s@),
{
    assert(strings_view(v.push(s)) =~= strings_view(v).push(s@));
}

impl Program {
    /// An empty program.
    pub fn new() -> (p: Program)
        ensures
            p@ == Seq::<SpecStmt>::empty(),
    {
        let p = Program { statements: Vec::new() };
        assert(p@ =~= Seq::<SpecStmt>::empty());
        p
    }
}

} // verus!
