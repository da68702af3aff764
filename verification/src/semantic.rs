//! Name resolution: symbol tables with nested scopes, and the analyzer that
//! reports uses of undefined names.
use vstd::prelude::*;
use vstd::string::*;
use vstd::hash_map::StringHashMap;
use crate::ast::{Expression, Statement, Program, SpecExpr, SpecStmt, stmt_seq_view, strings_view};

verus! {

/// What a name stands for.
#[derive(Debug, Clone, Copy, PartialEq, Eq, Structural)]
pub enum Symbol {
    Variable,
    Function,
}

/// One scope of names.
pub type Scope = Map<Seq<char>, Symbol>;

/// The symbol a name resolves to in a chain of scopes, innermost first: the
/// first scope that defines it decides.
pub open spec fn lookup(scopes: Seq<Scope>, name: Seq<char>) -> Option<Symbol>
    decreases scopes.len(),
{
    if scopes.len() == 0 {
        None
    } else if scopes[0].contains_key(name) {
        Some(scopes[0][name])
    } else {
        lookup(scopes.subrange(1, scopes.len() as int), name)
    }
}

/// The chain of scopes after defining `name` as `symbol` in the innermost one.
pub open spec fn define_in(scopes: Seq<Scope>, name: Seq<char>, symbol: Symbol) -> Seq<Scope> {
    scopes.update(0, scopes[0].insert(name, symbol))
}

/// A scope table: names of the current scope, and the enclosing table.
pub struct SymbolTable {
    store: StringHashMap<Symbol>,
    outer: Option<Box<SymbolTable>>,
}

impl SymbolTable {
    /// The scopes of this table, innermost first.
    pub closed spec fn scopes(&self) -> Seq<Scope>
        decreases self,
    {
        match self.outer {
            Some(o) => seq![self.store@] + o.scopes(),
            None => seq![self.store@],
        }
    }

    /// A table with one empty scope.
    pub fn new() -> (t: SymbolTable)
        ensures
            t.scopes() == seq![Scope::empty()],
    {
        SymbolTable { store: StringHashMap::new(), outer: None }
    }

    /// A table with a new empty scope inside the scopes of `outer`.
    pub fn new_enclosed(outer: SymbolTable) -> (t: SymbolTable)
        ensures
            t.scopes() == seq![Scope::empty()] + outer.scopes(),
    {
        let mut table = SymbolTable::new();
        table.outer = Some(Box::new(outer));
        table
    }

    /// Defines `name` as `symbol` in the innermost scope.
    pub fn define(&mut self, name: String, symbol: Symbol)
        ensures
            final(self).scopes() == define_in(old(self).scopes(), name@, symbol),
            lookup(final(self).scopes(), name@) == Some(symbol),
            forall|m: Seq<char>| m != name@ ==> #[trigger] lookup(final(self).scopes(), m) == lookup(old(self).scopes(), m),
    {
        let ghost n = name@;
        proof {
            law_table_has_scope(*self);
            law_resolve_after_define(self.scopes(), n, symbol);
            assert forall|m: Seq<char>| m != n implies #[trigger] lookup(define_in(self.scopes(), n, symbol), m) == lookup(self.scopes(), m) by {
                law_define_keeps_others(self.scopes(), n, m, symbol);
            }
        }
        self.store.insert(name, symbol);
        assert(final(self).scopes() =~= define_in(old(self).scopes(), n, symbol));
    }

    /// The symbol `name` resolves to, looking from the innermost scope outwards.
    pub fn resolve(&self, name: &str) -> (r: Option<Symbol>)
        ensures
            r == lookup(self.scopes(), name@),
        decreases self,
    {
        assert(self.scopes()[0] == self.store@);
        match self.store.get(name) {
            Some(symbol) => {
                assert(self.scopes().len() >= 1);
                assert(self.scopes()[0].contains_key(name@));
                Some(*symbol)
            },
            None => match &self.outer {
                Some(outer) => {
                    let r = outer.resolve(name);
                    assert(self.scopes().subrange(1, self.scopes().len() as int) =~= outer.scopes());
                    r
                },
                None => {
                    assert(self.scopes().subrange(1, self.scopes().len() as int) =~= Seq::<Scope>::empty());
                    assert(lookup(Seq::<Scope>::empty(), name@) is None);
                    None
                },
            },
        }
    }

    /// The enclosing table, dropping the innermost scope.
    fn into_outer(self) -> (t: SymbolTable)
        requires
            self.scopes().len() >= 2,
        ensures
            t.scopes() == self.scopes().subrange(1, self.scopes().len() as int),
    {
        match self.outer {
            Some(o) => {
                assert(self.scopes().subrange(1, self.scopes().len() as int) =~= o.scopes());
                *o
            },
            None => SymbolTable::new(),
        }
    }
}

/// The message for a use of a name that no scope defines.
pub open spec fn undefined_msg(name: Seq<char>) -> Seq<char> {
    "undefined variable: "@ + name
}

/// The scope of a function's parameters: each defined as a variable.
pub open spec fn params_scope(params: Seq<Seq<char>>) -> Scope
    decreases params.len(),
{
    if params.len() == 0 {
        Map::empty()
    } else {
        params_scope(params.drop_last()).insert(params.last(), Symbol::Variable)
    }
}

/// The errors found in an expression under the given scopes, in order.
pub open spec fn sem_expr(e: SpecExpr, sc: Seq<Scope>) -> Seq<Seq<char>>
    decreases e, 0int,
{
    match e {
        SpecExpr::Ident(n) => if lookup(sc, n) is None {
            seq![undefined_msg(n)]
        } else {
            Seq::empty()
        },
        SpecExpr::Infix(_, l, r) => sem_expr(*l, sc) + sem_expr(*r, sc),
        SpecExpr::Prefix(_, r) => sem_expr(*r, sc),
        SpecExpr::If { condition, consequence, alternative } => sem_expr(*condition, sc) + sem_block(consequence, sc)
            + match alternative {
            Some(a) => sem_block(a, sc),
            None => Seq::empty(),
        },
        SpecExpr::Function { params, body } => sem_block(body, seq![params_scope(params)] + sc),
        _ => Seq::empty(),
    }
}

/// The errors found in a block, analysed in a fresh scope inside `sc`.
pub open spec fn sem_block(ss: Seq<SpecStmt>, sc: Seq<Scope>) -> Seq<Seq<char>>
    decreases ss, ss.len() + 1,
{
    sem_stmts(ss, 0, seq![Scope::empty()] + sc).0
}

/// The errors found in the statements `ss[i..]` and the scopes after them.
pub open spec fn sem_stmts(ss: Seq<SpecStmt>, i: int, sc: Seq<Scope>) -> (Seq<Seq<char>>, Seq<Scope>)
    decreases ss, ss.len() - i,
{
    if 0 <= i < ss.len() {
        let (e1, sc1) = sem_stmt(ss[i], sc);
        let (e2, sc2) = sem_stmts(ss, i + 1, sc1);
        (e1 + e2, sc2)
    } else {
        (Seq::empty(), sc)
    }
}

/// The errors found in a statement and the scopes after it: a `let` defines
/// its name as a variable after its value is analysed.
pub open spec fn sem_stmt(s: SpecStmt, sc: Seq<Scope>) -> (Seq<Seq<char>>, Seq<Scope>)
    decreases s, 0int,
{
    match s {
        SpecStmt::Let(n, e) => (sem_expr(e, sc), define_in(sc, n, Symbol::Variable)),
        SpecStmt::Return(e) => (sem_expr(e, sc), sc),
        SpecStmt::Expression(e) => (sem_expr(e, sc), sc),
    }
}

/// Checks that every name a program uses is defined where it is used.
pub struct SemanticAnalyzer {
    table: SymbolTable,
    errors: Vec<String>,
}

impl SemanticAnalyzer {
    /// The scopes currently in force, innermost first.
    pub closed spec fn scopes(&self) -> Seq<Scope> {
        self.table.scopes()
    }

    /// The error messages so far.
    pub closed spec fn error_texts(&self) -> Seq<Seq<char>> {
        strings_view(self.errors@)
    }

    /// An analyzer with one empty scope and no errors.
    pub fn new() -> (a: SemanticAnalyzer)
        ensures
            a.scopes() == seq![Scope::empty()],
            a.error_texts() == Seq::<Seq<char>>::empty(),
    {
        let a = SemanticAnalyzer { table: SymbolTable::new(), errors: Vec::new() };
        assert(a.error_texts() =~= Seq::<Seq<char>>::empty());
        a
    }

    /// Analyses the statements of `program` in the current scope.
    pub fn analyze(&mut self, program: &Program)
        ensures
            final(self).error_texts() == old(self).error_texts() + sem_stmts(program@, 0, old(self).scopes()).0,
            final(self).scopes() == sem_stmts(program@, 0, old(self).scopes()).1,
    {
        self.analyze_statement_list(program.statements.as_slice());
    }

    /// The error messages recorded so far.
    pub fn errors(&self) -> (r: &[String])
        ensures
            strings_view(r@) == self.error_texts(),
    {
        self.errors.as_slice()
    }

    /// Takes the current table out, leaving a fresh one in its place.
    fn take_table(&mut self) -> (t: SymbolTable)
        ensures
            t.scopes() == old(self).scopes(),
            final(self).error_texts() == old(self).error_texts(),
    {
        let mut t = SymbolTable::new();
        std::mem::swap(&mut t, &mut self.table);
        t
    }

    fn push_error(&mut self, msg: String)
        ensures
            final(self).error_texts() == old(self).error_texts().push(msg@),
            final(self).scopes() == old(self).scopes(),
    {
        let ghost prev = self.errors@;
        self.errors.push(msg);
        assert(strings_view(self.errors@) =~= strings_view(prev).push(msg@));
    }

    /// Analyses statements in order in the current scope.
    fn analyze_statement_list(&mut self, statements: &[Statement])
        ensures
            final(self).error_texts() == old(self).error_texts() + sem_stmts(stmt_seq_view(statements@), 0, old(self).scopes()).0,
            final(self).scopes() == sem_stmts(stmt_seq_view(statements@), 0, old(self).scopes()).1,
        decreases statements@, 1int,
    {
        let ghost ss = stmt_seq_view(statements@);
        let ghost e0 = self.error_texts();
        let ghost sc0 = self.scopes();
        let mut i: usize = 0;
        assert(e0 + Seq::<Seq<char>>::empty() =~= e0);
        while i < statements.len()
            invariant
                i <= statements@.len(),
                ss == stmt_seq_view(statements@),
                e0 + sem_stmts(ss, 0, sc0).0 == self.error_texts() + sem_stmts(ss, i as int, self.scopes()).0,
                sem_stmts(ss, 0, sc0).1 == sem_stmts(ss, i as int, self.scopes()).1,
            decreases statements@.len() - i,
        {
            let ghost before_e = self.error_texts();
            let ghost before_sc = self.scopes();
            assert(decreases_to!(statements@ => statements@[i as int]));
            self.analyze_statement(&statements[i]);
            assert(ss[i as int] == statements@[i as int]@);
            i = i + 1;
            assert(before_e + sem_stmts(ss, i - 1, before_sc).0 =~= self.error_texts() + sem_stmts(ss, i as int, self.scopes()).0);
        }
        assert(self.error_texts() + sem_stmts(ss, i as int, self.scopes()).0 =~= self.error_texts());
    }

    fn analyze_statement(&mut self, statement: &Statement)
        ensures
            final(self).error_texts() == old(self).error_texts() + sem_stmt(statement@, old(self).scopes()).0,
            final(self).scopes() == sem_stmt(statement@, old(self).scopes()).1,
        decreases statement, 0int,
    {
        match statement {
            Statement::Let(name, expr) => {
                self.analyze_expression(expr);
                self.table.define(name.clone(), Symbol::Variable);
            },
            Statement::Return(expr) => {
                self.analyze_expression(expr);
            },
            Statement::Expression(expr) => {
                self.analyze_expression(expr);
            },
        }
    }

    fn analyze_expression(&mut self, expression: &Expression)
        ensures
            final(self).error_texts() == old(self).error_texts() + sem_expr(expression@, old(self).scopes()),
            final(self).scopes() == old(self).scopes(),
        decreases expression, 0int,
    {
        let ghost e0 = self.error_texts();
        match expression {
            Expression::Ident(name) => {
                if self.table.resolve(name.as_str()).is_none() {
                    let mut msg = String::from_str("undefined variable: ");
                    msg.append(name.as_str());
                    self.push_error(msg);
                    assert(self.error_texts() =~= e0 + sem_expr(expression@, old(self).scopes()));
                } else {
                    assert(self.error_texts() =~= e0 + sem_expr(expression@, old(self).scopes()));
                }
            },
            Expression::Infix(_, left, right) => {
                self.analyze_expression(left);
                self.analyze_expression(right);
                assert(self.error_texts() =~= e0 + sem_expr(expression@, old(self).scopes()));
            },
            Expression::Prefix(_, right) => {
                self.analyze_expression(right);
            },
            Expression::If { condition, consequence, alternative } => {
                self.analyze_expression(condition);
                assert(decreases_to!(*expression => (*expression)->If_consequence));
                assert(decreases_to!((*expression)->If_consequence => consequence@));
                self.analyze_statements(consequence.as_slice());
                let ghost e1 = self.error_texts();
                match alternative {
                    Some(alt) => {
                        assert(decreases_to!(*expression => (*expression)->If_alternative));
                        assert(decreases_to!((*expression)->If_alternative => (*expression)->If_alternative->0));
                        assert(decreases_to!(*alt => alt@));
                        self.analyze_statements(alt.as_slice());
                    },
                    None => {},
                }
                assert(self.error_texts() =~= e0 + sem_expr(expression@, old(self).scopes()));
            },
            Expression::Function { params, body } => {
                let ghost sc0 = self.scopes();
                let outer = self.take_table();
                let mut new_table = SymbolTable::new_enclosed(outer);
                let mut i: usize = 0;
                assert(strings_view(params@).take(0) =~= Seq::<Seq<char>>::empty());
                while i < params.len()
                    invariant
                        i <= params@.len(),
                        new_table.scopes() == seq![params_scope(strings_view(params@).take(i as int))] + sc0,
                    decreases params@.len() - i,
                {
                    new_table.define(params[i].clone(), Symbol::Variable);
                    assert(strings_view(params@).take(i + 1).drop_last() =~= strings_view(params@).take(i as int));
                    i = i + 1;
                    assert(new_table.scopes() =~= seq![params_scope(strings_view(params@).take(i as int))] + sc0);
                }
                assert(strings_view(params@).take(i as int) =~= strings_view(params@));
                self.table = new_table;
                assert(decreases_to!(*expression => (*expression)->Function_body));
                assert(decreases_to!((*expression)->Function_body => body@));
                self.analyze_statements(body.as_slice());
                let inner = self.take_table();
                self.table = inner.into_outer();
                assert(self.scopes() =~= sc0);
            },
            _ => {
                assert(self.error_texts() =~= e0 + sem_expr(expression@, old(self).scopes()));
            },
        }
    }

    /// Analyses a block: its statements in a fresh scope that is dropped after.
    fn analyze_statements(&mut self, statements: &[Statement])
        ensures
            final(self).error_texts() == old(self).error_texts() + sem_block(stmt_seq_view(statements@), old(self).scopes()),
            final(self).scopes() == old(self).scopes(),
        decreases statements@, 2int,
    {
        let ghost sc0 = self.scopes();
        let outer = self.take_table();
        self.table = SymbolTable::new_enclosed(outer);
        self.analyze_statement_list(statements);
        proof { lemma_sem_stmts_keeps_outer(stmt_seq_view(statements@), 0, seq![Scope::empty()] + sc0); }
        let inner = self.take_table();
        self.table = inner.into_outer();
        assert(self.scopes() =~= sc0);
    }
}

/// Analysing statements changes only the innermost scope.
pub proof fn lemma_sem_stmts_keeps_outer(ss: Seq<SpecStmt>, i: int, sc: Seq<Scope>)
    requires
        sc.len() >= 1,
    ensures
        sem_stmts(ss, i, sc).1.len() == sc.len(),
        sem_stmts(ss, i, sc).1.subrange(1, sc.len() as int) == sc.subrange(1, sc.len() as int),
    decreases ss.len() - i,
{
    if 0 <= i < ss.len() {
        let sc1 = sem_stmt(ss[i], sc).1;
        assert(sc1.subrange(1, sc.len() as int) =~= sc.subrange(1, sc.len() as int));
        lemma_sem_stmts_keeps_outer(ss, i + 1, sc1);
    }
}

/// A name resolves to the symbol it was last defined as.
pub proof fn law_resolve_after_define(scopes: Seq<Scope>, name: Seq<char>, symbol: Symbol)
    requires
        scopes.len() >= 1,
    ensures
        lookup(define_in(scopes, name, symbol), name) == Some(symbol),
{
}

/// Defining a name leaves the resolution of every other name unchanged.
pub proof fn law_define_keeps_others(scopes: Seq<Scope>, name: Seq<char>, other: Seq<char>, symbol: Symbol)
    requires
        scopes.len() >= 1,
        name != other,
    ensures
        lookup(define_in(scopes, name, symbol), other) == lookup(scopes, other),
{
    let d = define_in(scopes, name, symbol);
    assert(d.subrange(1, d.len() as int) =~= scopes.subrange(1, scopes.len() as int));
}

/// A fresh inner scope resolves every name as its enclosing scopes do.
pub proof fn law_enclosed_sees_outer(outer: Seq<Scope>, name: Seq<char>)
    ensures
        lookup(seq![Scope::empty()] + outer, name) == lookup(outer, name),
{
    let sc = seq![Scope::empty()] + outer;
    assert(sc.subrange(1, sc.len() as int) =~= outer);
}

/// A definition in an inner scope hides the enclosing ones, whatever they say.
pub proof fn law_inner_shadows_outer(inner: Scope, outer: Seq<Scope>, name: Seq<char>, symbol: Symbol)
    ensures
        lookup(define_in(seq![inner] + outer, name, symbol), name) == Some(symbol),
        lookup(seq![inner] + outer, name) == (if inner.contains_key(name) {
            Some(inner[name])
        } else {
            lookup(outer, name)
        }),
{
    let sc = seq![inner] + outer;
    assert(sc.subrange(1, sc.len() as int) =~= outer);
}

/// Every symbol table has at least one scope, its innermost.
pub proof fn law_table_has_scope(t: SymbolTable)
    ensures
        t.scopes().len() >= 1,
{
    match t.outer {
        Some(o) => {},
        None => {},
    }
}

/// Whether name `n` is used as an identifier anywhere in an expression,
/// blocks and function bodies included.
pub open spec fn ident_in_expr(e: SpecExpr, n: Seq<char>) -> bool
    decreases e, 0int,
{
    match e {
        SpecExpr::Ident(m) => m == n,
        SpecExpr::Infix(_, l, r) => ident_in_expr(*l, n) || ident_in_expr(*r, n),
        SpecExpr::Prefix(_, r) => ident_in_expr(*r, n),
        SpecExpr::If { condition, consequence, alternative } => ident_in_expr(*condition, n)
            || ident_in_stmts(consequence, 0, n) || match alternative {
            Some(a) => ident_in_stmts(a, 0, n),
            None => false,
        },
        SpecExpr::Function { params, body } => ident_in_stmts(body, 0, n),
        SpecExpr::Call { function, arguments } => ident_in_expr(*function, n) || ident_in_args(arguments, 0, n),
        _ => false,
    }
}

/// Whether name `n` is used as an identifier in `args[i..]`.
pub open spec fn ident_in_args(args: Seq<SpecExpr>, i: int, n: Seq<char>) -> bool
    decreases args, args.len() - i,
{
    if 0 <= i < args.len() {
        ident_in_expr(args[i], n) || ident_in_args(args, i + 1, n)
    } else {
        false
    }
}

/// Whether name `n` is used as an identifier in `ss[i..]`.
pub open spec fn ident_in_stmts(ss: Seq<SpecStmt>, i: int, n: Seq<char>) -> bool
    decreases ss, ss.len() - i,
{
    if 0 <= i < ss.len() {
        ident_in_stmt(ss[i], n) || ident_in_stmts(ss, i + 1, n)
    } else {
        false
    }
}

/// Whether name `n` is used as an identifier in a statement.
pub open spec fn ident_in_stmt(s: SpecStmt, n: Seq<char>) -> bool
    decreases s, 0int,
{
    match s {
        SpecStmt::Let(_, e) => ident_in_expr(e, n),
        SpecStmt::Return(e) => ident_in_expr(e, n),
        SpecStmt::Expression(e) => ident_in_expr(e, n),
    }
}

/// Whether `m` is the undefined-variable message of some name in `names`.
pub open spec fn undefined_msg_of(m: Seq<char>, names: spec_fn(Seq<char>) -> bool) -> bool {
    exists|n: Seq<char>| names(n) && #[trigger] undefined_msg(n) == m
}

/// Whether every message of `msgs` is the undefined-variable message of a
/// name in `names`.
pub open spec fn reports_only(msgs: Seq<Seq<char>>, names: spec_fn(Seq<char>) -> bool) -> bool {
    forall|k: int| 0 <= k < msgs.len() ==> undefined_msg_of(#[trigger] msgs[k], names)
}

proof fn lemma_reports_concat(
    a: Seq<Seq<char>>,
    b: Seq<Seq<char>>,
    p: spec_fn(Seq<char>) -> bool,
    q: spec_fn(Seq<char>) -> bool,
    r: spec_fn(Seq<char>) -> bool,
)
    requires
        reports_only(a, p),
        reports_only(b, q),
        forall|n: Seq<char>| #[trigger] p(n) ==> r(n),
        forall|n: Seq<char>| #[trigger] q(n) ==> r(n),
    ensures
        reports_only(a + b, r),
{
    let c = a + b;
    assert forall|k: int| 0 <= k < c.len() implies undefined_msg_of(#[trigger] c[k], r) by {
        if k < a.len() {
            assert(c[k] == a[k]);
            assert(undefined_msg_of(a[k], p));
            let n = choose|n: Seq<char>| p(n) && #[trigger] undefined_msg(n) == a[k];
            assert(r(n));
        } else {
            assert(c[k] == b[k - a.len()]);
            assert(undefined_msg_of(b[k - a.len()], q));
            let n = choose|n: Seq<char>| q(n) && #[trigger] undefined_msg(n) == b[k - a.len()];
            assert(r(n));
        }
    }
}

proof fn lemma_reports_empty(p: spec_fn(Seq<char>) -> bool)
    ensures
        reports_only(Seq::empty(), p),
{
}

/// Analysing an expression reports only uses of undefined names: every
/// message it adds is `undefined variable: n` for a name `n` used as an
/// identifier in the expression. (Analysing it leaves the scopes as they were:
/// the model `sem_expr` yields messages only.)
pub proof fn law_expr_reports_its_identifiers(e: SpecExpr, sc: Seq<Scope>)
    ensures
        reports_only(sem_expr(e, sc), |n: Seq<char>| ident_in_expr(e, n)),
    decreases e, 1int,
{
    let pe = |n: Seq<char>| ident_in_expr(e, n);
    match e {
        SpecExpr::Ident(m) => {
            if lookup(sc, m) is None {
                assert(pe(m));
                assert(sem_expr(e, sc)[0] == undefined_msg(m));
            }
        },
        SpecExpr::Infix(_, l, r) => {
            law_expr_reports_its_identifiers(*l, sc);
            law_expr_reports_its_identifiers(*r, sc);
            lemma_reports_concat(
                sem_expr(*l, sc),
                sem_expr(*r, sc),
                |n: Seq<char>| ident_in_expr(*l, n),
                |n: Seq<char>| ident_in_expr(*r, n),
                pe,
            );
        },
        SpecExpr::Prefix(_, r) => {
            law_expr_reports_its_identifiers(*r, sc);
        },
        SpecExpr::If { condition, consequence, alternative } => {
            law_expr_reports_its_identifiers(*condition, sc);
            law_block_reports_its_identifiers(consequence, sc);
            let pc = |n: Seq<char>| ident_in_expr(*condition, n);
            let pb = |n: Seq<char>| ident_in_stmts(consequence, 0, n);
            lemma_reports_concat(sem_expr(*condition, sc), sem_block(consequence, sc), pc, pb, pe);
            match alternative {
                Some(a) => {
                    law_block_reports_its_identifiers(a, sc);
                    lemma_reports_concat(
                        sem_expr(*condition, sc) + sem_block(consequence, sc),
                        sem_block(a, sc),
                        pe,
                        |n: Seq<char>| ident_in_stmts(a, 0, n),
                        pe,
                    );
                },
                None => {
                    lemma_reports_empty(pe);
                    lemma_reports_concat(
                        sem_expr(*condition, sc) + sem_block(consequence, sc),
                        Seq::empty(),
                        pe,
                        pe,
                        pe,
                    );
                },
            }
        },
        SpecExpr::Function { params, body } => {
            law_block_reports_its_identifiers(body, seq![params_scope(params)] + sc);
        },
        _ => {},
    }
}

/// Analysing a block reports only names used as identifiers in it.
pub proof fn law_block_reports_its_identifiers(ss: Seq<SpecStmt>, sc: Seq<Scope>)
    ensures
        reports_only(sem_block(ss, sc), |n: Seq<char>| ident_in_stmts(ss, 0, n)),
    decreases ss, ss.len() + 2,
{
    law_stmts_report_their_identifiers(ss, 0, seq![Scope::empty()] + sc);
}

/// Analysing statements reports only names used as identifiers in them.
pub proof fn law_stmts_report_their_identifiers(ss: Seq<SpecStmt>, i: int, sc: Seq<Scope>)
    ensures
        reports_only(sem_stmts(ss, i, sc).0, |n: Seq<char>| ident_in_stmts(ss, i, n)),
    decreases ss, ss.len() - i + 1,
{
    let p = |n: Seq<char>| ident_in_stmts(ss, i, n);
    if 0 <= i < ss.len() {
        let (e1, sc1) = sem_stmt(ss[i], sc);
        law_stmt_reports_its_identifiers(ss[i], sc);
        law_stmts_report_their_identifiers(ss, i + 1, sc1);
        lemma_reports_concat(
            e1,
            sem_stmts(ss, i + 1, sc1).0,
            |n: Seq<char>| ident_in_stmt(ss[i], n),
            |n: Seq<char>| ident_in_stmts(ss, i + 1, n),
            p,
        );
    }
}

/// Analysing a statement reports only names used as identifiers in it, and
/// changes the scopes only by a `let` defining its own name.
pub proof fn law_stmt_reports_its_identifiers(s: SpecStmt, sc: Seq<Scope>)
    ensures
        reports_only(sem_stmt(s, sc).0, |n: Seq<char>| ident_in_stmt(s, n)),
        sem_stmt(s, sc).1 == (match s {
            SpecStmt::Let(name, _) => define_in(sc, name, Symbol::Variable),
            _ => sc,
        }),
    decreases s, 1int,
{
    match s {
        SpecStmt::Let(_, e) => law_expr_reports_its_identifiers(e, sc),
        SpecStmt::Return(e) => law_expr_reports_its_identifiers(e, sc),
        SpecStmt::Expression(e) => law_expr_reports_its_identifiers(e, sc),
    }
}

proof fn lemma_sem_stmts_shift(a: Seq<SpecStmt>, b: Seq<SpecStmt>, j: int, sc: Seq<Scope>)
    requires
        0 <= j <= b.len(),
    ensures
        sem_stmts(a + b, a.len() + j, sc) == sem_stmts(b, j, sc),
    decreases b.len() - j,
{
    if j < b.len() {
        assert((a + b)[a.len() + j] == b[j]);
        lemma_sem_stmts_shift(a, b, j + 1, sem_stmt(b[j], sc).1);
    }
}

proof fn lemma_sem_stmts_concat_from(a: Seq<SpecStmt>, b: Seq<SpecStmt>, i: int, sc: Seq<Scope>)
    requires
        0 <= i <= a.len(),
    ensures
        ({
            let (ea, sa) = sem_stmts(a, i, sc);
            let (eb, sb) = sem_stmts(b, 0, sa);
            sem_stmts(a + b, i, sc) == (ea + eb, sb)
        }),
    decreases a.len() - i,
{
    if i < a.len() {
        assert((a + b)[i] == a[i]);
        let (e1, sc1) = sem_stmt(a[i], sc);
        lemma_sem_stmts_concat_from(a, b, i + 1, sc1);
        let (ea, sa) = sem_stmts(a, i + 1, sc1);
        let (eb, sb) = sem_stmts(b, 0, sa);
        assert(e1 + (ea + eb) =~= (e1 + ea) + eb);
    } else {
        lemma_sem_stmts_shift(a, b, 0, sc);
        let (eb, sb) = sem_stmts(b, 0, sc);
        assert(Seq::<Seq<char>>::empty() + eb =~= eb);
    }
}

/// Analysing two programs one after the other is analysing their joined
/// statements once: the messages of the second follow those of the first,
/// and the second is analysed in the scopes the first left, so its
/// top-level `let`s stay visible.
pub proof fn law_analyze_joined_programs(a: Seq<SpecStmt>, b: Seq<SpecStmt>, sc: Seq<Scope>)
    ensures
        ({
            let (ea, sa) = sem_stmts(a, 0, sc);
            let (eb, sb) = sem_stmts(b, 0, sa);
            sem_stmts(a + b, 0, sc) == (ea + eb, sb)
        }),
{
    lemma_sem_stmts_concat_from(a, b, 0, sc);
}

/// The scope of a function's parameters defines every parameter as a
/// variable, and nothing else.
pub proof fn law_params_scope_defines_params(params: Seq<Seq<char>>)
    ensures
        forall|k: int| 0 <= k < params.len() ==> #[trigger] params_scope(params).contains_key(params[k])
            && params_scope(params)[params[k]] == Symbol::Variable,
        forall|n: Seq<char>| #[trigger] params_scope(params).contains_key(n) ==> params.contains(n),
    decreases params.len(),
{
    if params.len() > 0 {
        let init = params.drop_last();
        law_params_scope_defines_params(init);
        assert forall|k: int| 0 <= k < params.len() implies #[trigger] params_scope(params).contains_key(params[k])
            && params_scope(params)[params[k]] == Symbol::Variable by {
            if k < params.len() - 1 {
                assert(params[k] == init[k]);
            }
        }
        assert forall|n: Seq<char>| #[trigger] params_scope(params).contains_key(n) implies params.contains(n) by {
            if n != params.last() {
                assert(params_scope(init).contains_key(n));
                let j = choose|j: int| 0 <= j < init.len() && init[j] == n;
                assert(params[j] == n);
            } else {
                assert(params[params.len() - 1] == n);
            }
        }
    }
}

/// A name that resolves still resolves inside a further scope.
proof fn lemma_found_in_enclosed(x: Scope, sc: Seq<Scope>, n: Seq<char>)
    requires
        lookup(sc, n) is Some,
    ensures
        lookup(seq![x] + sc, n) is Some,
{
    let s2 = seq![x] + sc;
    assert(s2.subrange(1, s2.len() as int) =~= sc);
}

/// A name that resolves still resolves after a definition.
proof fn lemma_found_after_define(sc: Seq<Scope>, m: Seq<char>, symbol: Symbol, n: Seq<char>)
    requires
        sc.len() >= 1,
        lookup(sc, n) is Some,
    ensures
        lookup(define_in(sc, m, symbol), n) is Some,
{
    if m == n {
        law_resolve_after_define(sc, m, symbol);
    } else {
        law_define_keeps_others(sc, m, n, symbol);
    }
}

/// Analysing an expression never reports a name that resolves in the scopes
/// it is analysed in: definitions inside it only add names.
pub proof fn law_expr_reports_only_unresolved(e: SpecExpr, sc: Seq<Scope>)
    ensures
        reports_only(sem_expr(e, sc), |n: Seq<char>| lookup(sc, n) is None),
    decreases e, 1int,
{
    let pe = |n: Seq<char>| lookup(sc, n) is None;
    match e {
        SpecExpr::Ident(m) => {
            if lookup(sc, m) is None {
                assert(pe(m));
                assert(sem_expr(e, sc)[0] == undefined_msg(m));
            }
        },
        SpecExpr::Infix(_, l, r) => {
            law_expr_reports_only_unresolved(*l, sc);
            law_expr_reports_only_unresolved(*r, sc);
            lemma_reports_concat(sem_expr(*l, sc), sem_expr(*r, sc), pe, pe, pe);
        },
        SpecExpr::Prefix(_, r) => {
            law_expr_reports_only_unresolved(*r, sc);
        },
        SpecExpr::If { condition, consequence, alternative } => {
            law_expr_reports_only_unresolved(*condition, sc);
            law_block_reports_only_unresolved(consequence, sc);
            lemma_reports_concat(sem_expr(*condition, sc), sem_block(consequence, sc), pe, pe, pe);
            match alternative {
                Some(a) => {
                    law_block_reports_only_unresolved(a, sc);
                    lemma_reports_concat(
                        sem_expr(*condition, sc) + sem_block(consequence, sc),
                        sem_block(a, sc),
                        pe,
                        pe,
                        pe,
                    );
                },
                None => {
                    lemma_reports_empty(pe);
                    lemma_reports_concat(
                        sem_expr(*condition, sc) + sem_block(consequence, sc),
                        Seq::empty(),
                        pe,
                        pe,
                        pe,
                    );
                },
            }
        },
        SpecExpr::Function { params, body } => {
            let inner = seq![params_scope(params)] + sc;
            law_block_reports_only_unresolved(body, inner);
            assert forall|n: Seq<char>| #[trigger] lookup(inner, n) is None implies pe(n) by {
                if lookup(sc, n) is Some {
                    lemma_found_in_enclosed(params_scope(params), sc, n);
                }
            }
            lemma_reports_empty(pe);
            lemma_reports_concat(
                sem_block(body, inner),
                Seq::empty(),
                |n: Seq<char>| lookup(inner, n) is None,
                pe,
                pe,
            );
            assert(sem_block(body, inner) + Seq::<Seq<char>>::empty() =~= sem_block(body, inner));
        },
        _ => {},
    }
}

/// Analysing a block never reports a name that resolves in the enclosing
/// scopes.
pub proof fn law_block_reports_only_unresolved(ss: Seq<SpecStmt>, sc: Seq<Scope>)
    ensures
        reports_only(sem_block(ss, sc), |n: Seq<char>| lookup(sc, n) is None),
    decreases ss, ss.len() + 2,
{
    let inner = seq![Scope::empty()] + sc;
    law_stmts_report_only_unresolved(ss, 0, inner);
    let pe = |n: Seq<char>| lookup(sc, n) is None;
    assert forall|n: Seq<char>| #[trigger] lookup(inner, n) is None implies pe(n) by {
        law_enclosed_sees_outer(sc, n);
    }
    lemma_reports_empty(pe);
    lemma_reports_concat(
        sem_block(ss, sc),
        Seq::empty(),
        |n: Seq<char>| lookup(inner, n) is None,
        pe,
        pe,
    );
    assert(sem_block(ss, sc) + Seq::<Seq<char>>::empty() =~= sem_block(ss, sc));
}

/// Analysing statements never reports a name that resolves in the scopes
/// they start from.
pub proof fn law_stmts_report_only_unresolved(ss: Seq<SpecStmt>, i: int, sc: Seq<Scope>)
    requires
        sc.len() >= 1,
    ensures
        reports_only(sem_stmts(ss, i, sc).0, |n: Seq<char>| lookup(sc, n) is None),
    decreases ss, ss.len() - i + 1,
{
    let pe = |n: Seq<char>| lookup(sc, n) is None;
    if 0 <= i < ss.len() {
        let (e1, sc1) = sem_stmt(ss[i], sc);
        law_stmt_reports_its_identifiers(ss[i], sc);
        match ss[i] {
            SpecStmt::Let(_, e) => law_expr_reports_only_unresolved(e, sc),
            SpecStmt::Return(e) => law_expr_reports_only_unresolved(e, sc),
            SpecStmt::Expression(e) => law_expr_reports_only_unresolved(e, sc),
        }
        assert(sc1.len() == sc.len());
        law_stmts_report_only_unresolved(ss, i + 1, sc1);
        assert forall|n: Seq<char>| #[trigger] lookup(sc1, n) is None implies pe(n) by {
            if lookup(sc, n) is Some {
                match ss[i] {
                    SpecStmt::Let(name, _) => lemma_found_after_define(sc, name, Symbol::Variable, n),
                    _ => {},
                }
            }
        }
        lemma_reports_concat(
            e1,
            sem_stmts(ss, i + 1, sc1).0,
            pe,
            |n: Seq<char>| lookup(sc1, n) is None,
            pe,
        );
    }
}

/// The body of a function literal never reports one of the function's
/// parameters, nor a name that resolves around the literal: every message is
/// `undefined variable: n` for a name `n` that is neither.
pub proof fn law_function_never_reports_params(params: Seq<Seq<char>>, body: Seq<SpecStmt>, sc: Seq<Scope>)
    ensures
        reports_only(
            sem_expr(SpecExpr::Function { params, body }, sc),
            |n: Seq<char>| !params.contains(n) && lookup(sc, n) is None,
        ),
{
    let ps = params_scope(params);
    let inner = seq![ps] + sc;
    let r = |n: Seq<char>| !params.contains(n) && lookup(sc, n) is None;
    law_params_scope_defines_params(params);
    law_block_reports_only_unresolved(body, inner);
    assert forall|n: Seq<char>| #[trigger] lookup(inner, n) is None implies r(n) by {
        law_inner_shadows_outer(ps, sc, n, Symbol::Variable);
        if params.contains(n) {
            let k = choose|k: int| 0 <= k < params.len() && params[k] == n;
            assert(ps.contains_key(params[k]));
        }
    }
    lemma_reports_empty(r);
    lemma_reports_concat(
        sem_block(body, inner),
        Seq::empty(),
        |n: Seq<char>| lookup(inner, n) is None,
        r,
        r,
    );
    assert(sem_block(body, inner) + Seq::<Seq<char>>::empty() =~= sem_block(body, inner));
}

} // verus!
